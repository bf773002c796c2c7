use kova::input::{LogicalKey, NamedKey};
use kova::window::{
    project_name, BarEntry,
    commit_text, completion_message, completion_notice, edit_text, grid_dims, FrameTimers, KeyModes, KeyRoute,
    Project, RenameProjectState, Tab, ViewMode, Workspace,
};

fn project(root: &str, tabs: &[u32], active: usize) -> Project<u32> {
    let mut p = Project::new(root.to_string(), tabs[0]);
    for &t in &tabs[1..] {
        p.tabs.push(Tab::new(t));
    }
    p.active_tab = active;
    p
}

fn workspace(projects: Vec<Project<u32>>, active: usize) -> Workspace<u32> {
    let mut it = projects.into_iter();
    let mut w = Workspace::new(it.next().unwrap());
    for p in it {
        w.push_project(p);
    }
    w.active_project = active;
    w
}

fn tabs(w: &Workspace<u32>) -> Vec<Vec<u32>> {
    w.projects.iter().map(|p| p.tabs.iter().map(|t| t.content).collect()).collect()
}

fn ch(s: &str) -> LogicalKey {
    LogicalKey::Character(s.to_string())
}

fn named(n: NamedKey) -> LogicalKey {
    LogicalKey::Named(n)
}

#[test]
fn new_project_and_workspace() {
    let p = Project::new("/src".to_string(), 7u32);
    assert_eq!(p.tabs.len(), 1);
    assert_eq!(p.tabs[0].content, 7);
    assert!(!p.tabs[0].has_bell);
    assert_eq!(p.active_tab, 0);
    assert!(p.custom_name.is_none());
    let w = Workspace::new(p);
    assert_eq!(w.active_project, 0);
    assert_eq!(w.view_mode, ViewMode::Project);
    assert!(!w.is_grid_view());
    assert_eq!(w.active_tab_idx(), 0);
}

#[test]
fn switching_tabs_cycles() {
    let mut w = workspace(vec![project("/a", &[1, 2, 3], 0)], 0);
    assert_eq!(w.switch_tab_relative(1), 1);
    assert_eq!(w.switch_tab_relative(1), 2);
    assert_eq!(w.switch_tab_relative(1), 0);
    assert_eq!(w.switch_tab_relative(-1), 2);
    assert_eq!(w.switch_tab_relative(-7), 1);
    assert_eq!(w.switch_tab_relative(i32::MAX), (1 + i32::MAX as usize) % 3);
    let expected = (w.active_tab_idx() as i64 + i32::MIN as i64).rem_euclid(3) as usize;
    assert_eq!(w.switch_tab_relative(i32::MIN), expected);
}

#[test]
fn switching_there_and_back() {
    let mut w = workspace(vec![project("/a", &[1, 2, 3, 4, 5], 3)], 0);
    for d in [-12, -5, -1, 0, 1, 4, 9] {
        let start = w.active_tab_idx();
        w.switch_tab_relative(d);
        assert_eq!(w.switch_tab_relative(-d), start);
    }
}

#[test]
fn switch_tab_by_number() {
    let mut w = workspace(vec![project("/a", &[1, 2, 3], 0)], 0);
    assert!(w.switch_tab(2));
    assert_eq!(w.active_tab_idx(), 2);
    assert!(!w.switch_tab(3));
    assert_eq!(w.active_tab_idx(), 2);
}

#[test]
fn switching_to_a_tab_clears_its_bell() {
    let mut w = workspace(vec![project("/a", &[1, 2, 3], 0), project("/b", &[4], 0)], 0);
    assert!(w.ring_bell(0, 1));
    assert!(!w.ring_bell(0, 1));
    assert!(w.ring_bell(0, 2));
    assert!(w.ring_bell(1, 0));
    assert!(w.projects[0].tabs[1].has_bell);
    assert_eq!(w.switch_tab_relative(1), 1);
    assert!(!w.projects[0].tabs[1].has_bell);
    assert!(w.projects[0].tabs[2].has_bell);
    assert!(w.projects[1].tabs[0].has_bell);
    assert!(w.switch_tab(2));
    assert!(!w.projects[0].tabs[2].has_bell);
    assert!(w.projects[1].tabs[0].has_bell);
    assert!(!w.switch_tab(5));
    assert_eq!(tabs(&w), vec![vec![1, 2, 3], vec![4]]);
}

#[test]
fn committed_project_name_is_stored() {
    let mut w = workspace(vec![project("/a", &[1], 0), project("/b", &[2], 0)], 0);
    let mut m = KeyModes::new();
    m.rename_project = Some(RenameProjectState { project_idx: 1, input: "Bo".to_string() });
    m.route_key(&ch("b"));
    let route = m.route_key(&named(NamedKey::Enter));
    match route {
        KeyRoute::CommitProjectName(idx, name) => {
            assert_eq!((idx, name.clone()), (1, Some("Bob".to_string())));
            assert!(w.rename_project(idx, name));
        }
        _ => panic!("the rename was not committed"),
    }
    assert_eq!(w.projects[1].custom_name, Some("Bob".to_string()));
    assert_eq!(w.projects[0].custom_name, None);
    assert!(m.rename_project.is_none());
    // An emptied name goes back to the default one.
    assert!(w.rename_project(1, None));
    assert_eq!(w.projects[1].custom_name, None);
    assert!(!w.rename_project(2, Some("x".to_string())));
}

#[test]
fn push_tab_and_project() {
    let mut w = workspace(vec![project("/a", &[1], 0)], 0);
    w.push_tab(2);
    assert_eq!(tabs(&w), vec![vec![1, 2]]);
    assert_eq!(w.active_tab_idx(), 1);
    w.push_project(Project::new("/b".to_string(), 3));
    assert_eq!(w.active_project, 1);
    assert_eq!(tabs(&w), vec![vec![1, 2], vec![3]]);
}

#[test]
fn move_tab_to_next_project() {
    let mut w = workspace(vec![project("/a", &[1, 2, 3], 1), project("/b", &[4], 0)], 0);
    assert!(w.move_tab_to_project(1));
    assert_eq!(tabs(&w), vec![vec![1, 3], vec![4, 2]]);
    assert_eq!(w.active_project, 1);
    assert_eq!(w.projects[1].active_tab, 1);
    assert_eq!(w.projects[0].active_tab, 1);
    // Moving back with a negative step wraps around.
    assert!(w.move_tab_to_project(-3));
    assert_eq!(tabs(&w), vec![vec![1, 3, 2], vec![4]]);
    assert_eq!(w.active_project, 0);
}

#[test]
fn move_tab_refusals() {
    // A single project.
    let mut w = workspace(vec![project("/a", &[1, 2], 0)], 0);
    assert!(!w.move_tab_to_project(1));
    // The step lands on the same project.
    let mut w = workspace(vec![project("/a", &[1, 2], 0), project("/b", &[3], 0)], 0);
    assert!(!w.move_tab_to_project(2));
    // The only tab of a project stays.
    let mut w = workspace(vec![project("/a", &[1], 0), project("/b", &[3], 0)], 0);
    assert!(!w.move_tab_to_project(1));
    assert_eq!(tabs(&w), vec![vec![1], vec![3]]);
    assert_eq!(w.active_project, 0);
}

#[test]
fn moving_keeps_every_tab() {
    let mut w = workspace(
        vec![project("/a", &[1, 2, 3], 2), project("/b", &[4, 5], 0), project("/c", &[6], 0)],
        0,
    );
    for d in [1, 2, -1, 1, 1, -2] {
        w.move_tab_to_project(d);
        let mut all: Vec<u32> = tabs(&w).into_iter().flatten().collect();
        all.sort();
        assert_eq!(all, vec![1, 2, 3, 4, 5, 6]);
        assert!(w.projects.iter().all(|p| !p.tabs.is_empty() && p.active_tab < p.tabs.len()));
    }
}

#[test]
fn drop_tab_on_other_project() {
    let mut w = workspace(vec![project("/a", &[1, 2], 0), project("/b", &[3], 0)], 0);
    assert!(w.drop_tab(0, 1, 1));
    assert_eq!(tabs(&w), vec![vec![1], vec![3, 2]]);
    assert_eq!(w.active_project, 1);
    assert_eq!(w.projects[1].active_tab, 1);
    assert!(!w.drop_tab(1, 0, 1));
    assert!(!w.drop_tab(1, 0, 5));
}

#[test]
fn dropping_the_last_tab_removes_its_project() {
    let mut w = workspace(
        vec![project("/a", &[1], 0), project("/b", &[2], 0), project("/c", &[3], 0)],
        0,
    );
    w.view_mode = ViewMode::All;
    assert!(w.drop_tab(0, 0, 2));
    assert_eq!(tabs(&w), vec![vec![2], vec![3, 1]]);
    assert_eq!(w.active_project, 1);
    assert_eq!(w.view_mode, ViewMode::All);
    // Two projects become one: the overview ends.
    assert!(w.drop_tab(0, 0, 1));
    assert_eq!(tabs(&w), vec![vec![3, 1, 2]]);
    assert_eq!(w.active_project, 0);
    assert_eq!(w.view_mode, ViewMode::Project);
}

#[test]
fn closing_tabs_and_projects() {
    let mut w = workspace(vec![project("/a", &[1, 2, 3], 2), project("/b", &[4], 0)], 0);
    let (tab, closed) = w.remove_active_tab();
    assert_eq!((tab.content, closed), (3, false));
    assert_eq!(tabs(&w), vec![vec![1, 2], vec![4]]);
    assert_eq!(w.active_tab_idx(), 1);
    w.active_project = 1;
    w.view_mode = ViewMode::Terminal;
    let (tab, closed) = w.remove_active_tab();
    assert_eq!((tab.content, closed), (4, false));
    assert_eq!(tabs(&w), vec![vec![1, 2]]);
    assert_eq!(w.active_project, 0);
    assert_eq!(w.view_mode, ViewMode::Project);
    let (tab, closed) = w.remove_active_tab();
    assert_eq!((tab.content, closed), (2, false));
    let (tab, closed) = w.remove_active_tab();
    assert_eq!((tab.content, closed), (1, true));
    assert!(w.projects.is_empty());
}

#[test]
fn project_bar_slots() {
    let mut w = workspace(vec![project("/a", &[1], 0), project("/b", &[2], 0)], 0);
    assert_eq!(w.filter_slot_count(true), 3);
    assert_eq!(w.filter_slot_count(false), 1);
    assert_eq!(w.project_at_slot(3, true), Some(0));
    assert_eq!(w.project_at_slot(4, true), Some(1));
    assert_eq!(w.project_at_slot(2, true), None);
    assert_eq!(w.project_at_slot(5, true), None);
    assert_eq!(w.project_at_slot(1, false), Some(0));
    // Filter slots toggle their overview.
    assert!(!w.click_project_bar(1, true));
    assert_eq!(w.view_mode, ViewMode::Claude);
    assert!(w.is_grid_view());
    assert!(!w.click_project_bar(1, true));
    assert_eq!(w.view_mode, ViewMode::Project);
    assert!(!w.click_project_bar(0, true));
    assert_eq!(w.view_mode, ViewMode::All);
    // A project slot shows that project.
    assert!(!w.click_project_bar(4, true));
    assert_eq!((w.active_project, w.view_mode), (1, ViewMode::Project));
    // The slot after the projects asks for a new one.
    assert!(w.click_project_bar(5, true));
    let single = workspace(vec![project("/a", &[1], 0)], 0);
    assert_eq!(single.filter_slot_count(true), 0);
    assert_eq!(single.project_at_slot(0, true), Some(0));
}

#[test]
fn empty_overview_is_left() {
    let mut w = workspace(vec![project("/a", &[1], 0), project("/b", &[2], 0)], 0);
    w.view_mode = ViewMode::Claude;
    assert!(!w.leave_empty_overview(2));
    assert!(w.leave_empty_overview(0));
    assert_eq!(w.view_mode, ViewMode::Project);
    assert!(!w.leave_empty_overview(0));
}

#[test]
fn visible_tabs_per_mode() {
    let mut w = workspace(vec![project("/a", &[1, 2], 1), project("/b", &[3], 0)], 0);
    let agent = vec![vec![true, false], vec![true]];
    assert_eq!(w.visible_tabs(&agent), vec![(0, 0, false), (0, 1, true)]);
    w.view_mode = ViewMode::All;
    assert_eq!(w.visible_tabs(&agent), vec![(0, 0, false), (0, 1, true), (1, 0, false)]);
    w.view_mode = ViewMode::Claude;
    assert_eq!(w.visible_tabs(&agent), vec![(0, 0, false), (1, 0, false)]);
    w.view_mode = ViewMode::Terminal;
    assert_eq!(w.visible_tabs(&agent), vec![(0, 1, true)]);
}

#[test]
fn agent_and_terminal_views_split_the_tabs() {
    let mut w = workspace(vec![project("/a", &[1, 2, 3], 2), project("/b", &[4, 5], 0)], 1);
    let agent = vec![vec![false, true, false], vec![true, false]];
    w.view_mode = ViewMode::All;
    let all = w.visible_tabs(&agent);
    w.view_mode = ViewMode::Claude;
    let claude = w.visible_tabs(&agent);
    w.view_mode = ViewMode::Terminal;
    let term = w.visible_tabs(&agent);
    assert_eq!(claude, vec![(0, 1, false), (1, 0, true)]);
    assert_eq!(term, vec![(0, 0, false), (0, 2, false), (1, 1, false)]);
    assert_eq!(claude.len() + term.len(), all.len());
    for entry in &all {
        assert!(claude.contains(entry) != term.contains(entry));
    }
}

#[test]
fn overview_grid() {
    assert_eq!(grid_dims(0, 3), (1, 1));
    assert_eq!(grid_dims(1, 3), (1, 1));
    assert_eq!(grid_dims(5, 3), (3, 2));
    assert_eq!(grid_dims(6, 3), (3, 2));
    assert_eq!(grid_dims(7, 3), (3, 3));
    assert_eq!(grid_dims(4, 9), (4, 1));
    assert_eq!(grid_dims(4, 0), (1, 4));
}

#[test]
fn editing_an_input_line() {
    let mut t = String::from("ab");
    edit_text(&mut t, &ch("é"));
    assert_eq!(t, "abé");
    edit_text(&mut t, &named(NamedKey::Backspace));
    assert_eq!(t, "ab");
    edit_text(&mut t, &named(NamedKey::ArrowLeft));
    assert_eq!(t, "ab");
    let mut e = String::new();
    edit_text(&mut e, &named(NamedKey::Backspace));
    assert_eq!(e, "");
    assert_eq!(commit_text(String::new()), None);
    assert_eq!(commit_text("x".to_string()), Some("x".to_string()));
}

#[test]
fn keys_go_to_the_help_overlay_first() {
    let mut m = KeyModes::new();
    assert!(matches!(m.route_key(&ch("a")), KeyRoute::Unhandled));
    m.show_help = true;
    m.filter_query = Some(String::new());
    assert!(matches!(m.route_key(&ch("a")), KeyRoute::Consumed));
    assert!(m.show_help);
    assert_eq!(m.filter_query.as_deref(), Some(""));
    assert!(matches!(m.route_key(&named(NamedKey::F1)), KeyRoute::Consumed));
    assert!(!m.show_help);
    m.show_help = true;
    assert!(matches!(m.route_key(&named(NamedKey::Escape)), KeyRoute::Consumed));
    assert!(!m.show_help);
}

#[test]
fn renaming_a_project() {
    let mut m = KeyModes::new();
    m.rename_project = Some(RenameProjectState { project_idx: 2, input: String::new() });
    assert!(matches!(m.route_key(&ch("w")), KeyRoute::Consumed));
    assert!(matches!(m.route_key(&ch("eb")), KeyRoute::Consumed));
    assert!(matches!(m.route_key(&named(NamedKey::Backspace)), KeyRoute::Consumed));
    assert_eq!(m.rename_project.as_ref().unwrap().input, "we");
    match m.route_key(&named(NamedKey::Enter)) {
        KeyRoute::CommitProjectName(2, Some(name)) => assert_eq!(name, "we"),
        _ => panic!("expected a committed name"),
    }
    assert!(m.rename_project.is_none());
    m.rename_project = Some(RenameProjectState { project_idx: 0, input: String::new() });
    assert!(matches!(m.route_key(&named(NamedKey::Enter)), KeyRoute::CommitProjectName(0, None)));
    m.rename_project = Some(RenameProjectState { project_idx: 0, input: "x".to_string() });
    assert!(matches!(m.route_key(&named(NamedKey::Escape)), KeyRoute::Consumed));
    assert!(m.rename_project.is_none());
}

#[test]
fn renaming_a_tab() {
    let mut m = KeyModes::new();
    m.rename_tab = Some("sh".to_string());
    m.filter_query = Some("q".to_string());
    assert!(matches!(m.route_key(&ch("!")), KeyRoute::Consumed));
    assert_eq!(m.rename_tab.as_deref(), Some("sh!"));
    assert_eq!(m.filter_query.as_deref(), Some("q"));
    match m.route_key(&named(NamedKey::Enter)) {
        KeyRoute::CommitTabTitle(Some(t)) => assert_eq!(t, "sh!"),
        _ => panic!("expected a committed title"),
    }
    m.rename_tab = Some("x".to_string());
    assert!(matches!(m.route_key(&named(NamedKey::Escape)), KeyRoute::Consumed));
    assert!(m.rename_tab.is_none());
}

#[test]
fn filter_query_editing() {
    let mut m = KeyModes::new();
    m.toggle_filter();
    assert_eq!(m.filter_query.as_deref(), Some(""));
    assert!(matches!(m.route_key(&ch("er")), KeyRoute::FilterChanged));
    assert!(matches!(m.route_key(&ch("r")), KeyRoute::FilterChanged));
    assert!(matches!(m.route_key(&named(NamedKey::Backspace)), KeyRoute::FilterChanged));
    assert_eq!(m.filter_query.as_deref(), Some("er"));
    assert!(matches!(m.route_key(&named(NamedKey::ArrowUp)), KeyRoute::Consumed));
    assert_eq!(m.filter_query.as_deref(), Some("er"));
    assert!(matches!(m.route_key(&named(NamedKey::Escape)), KeyRoute::FilterClosed));
    assert!(m.filter_query.is_none());
    m.toggle_filter();
    m.toggle_filter();
    assert!(m.filter_query.is_none());
}

#[test]
fn frame_timers() {
    let mut t = FrameTimers::new(10);
    assert_eq!((t.git_poll_interval, t.help_hint_frames), (20, 30));
    for i in 1..20 {
        let d = t.tick(false);
        assert!(!d.poll_git, "frame {i}");
    }
    assert!(t.tick(false).poll_git);
    assert_eq!(t.git_poll_counter, 0);
    assert_eq!(t.help_hint_frames, 10);
    // A bell notifies at once, with a toast for two seconds, then not again
    // for five seconds.
    assert_eq!(t.toast_text, "");
    assert!(t.tick(true).notify_bell);
    assert_eq!(t.notify_cooldown, 50);
    assert_eq!(t.toast_text, "Bell received");
    assert_eq!(t.toast_frames, 19);
    for _ in 0..49 {
        assert!(!t.tick(true).notify_bell);
    }
    assert_eq!(t.toast_frames, 0);
    assert!(t.tick(true).notify_bell);
    t.show_toast("Session saved".to_string());
    assert_eq!(t.toast_frames, 20);
    assert_eq!(t.toast_text, "Session saved");
    t.tick(false);
    assert_eq!(t.toast_frames, 19);
    assert_eq!(t.toast_text, "Session saved");
}

#[test]
fn completion_messages() {
    assert_eq!(completion_message(Some("cargo build"), 42), "'cargo build' finished (42s)");
    assert_eq!(completion_message(None, 7), "Command finished (7s)");
}

#[test]
fn completion_notices_respect_the_threshold() {
    assert_eq!(completion_notice(0, Some("make"), 100, 0), None);
    assert_eq!(completion_notice(10, Some("make"), 9, 999_999_999), None);
    assert_eq!(completion_notice(10, Some("make"), 10, 0), None);
    assert_eq!(completion_notice(10, Some("make"), 10, 500_000_000).as_deref(), Some("'make' finished (10s)"));
    assert_eq!(completion_notice(10, Some("make"), 10, 1).as_deref(), Some("'make' finished (10s)"));
    assert_eq!(completion_notice(10, Some("make"), 11, 0).as_deref(), Some("'make' finished (11s)"));
    assert_eq!(completion_notice(1, None, 3600, 0).as_deref(), Some("Command finished (3600s)"));
}

#[test]
fn show_all_toggles_with_two_projects() {
    let mut w = workspace(vec![project("/a", &[1], 0)], 0);
    assert!(!w.toggle_all_view());
    assert_eq!(w.view_mode, ViewMode::Project);
    w.push_project(Project::new("/b".to_string(), 2));
    assert!(w.toggle_all_view());
    assert_eq!(w.view_mode, ViewMode::All);
    assert!(w.toggle_all_view());
    assert_eq!(w.view_mode, ViewMode::Project);
    w.view_mode = ViewMode::Claude;
    assert!(w.toggle_all_view());
    assert_eq!(w.view_mode, ViewMode::All);
}

fn titles(v: Vec<(BarEntry, bool)>) -> Vec<(String, bool)> {
    v.into_iter()
        .map(|(e, b)| match e {
            BarEntry::Filter(m) => (format!("<{:?}>", m), b),
            BarEntry::Project(t) => (t, b),
        })
        .collect()
}

fn expect(v: &[(&str, bool)]) -> Vec<(String, bool)> {
    v.iter().map(|(s, b)| (s.to_string(), *b)).collect()
}

#[test]
fn project_bar_titles() {
    let mut w = workspace(vec![project("/home/ana/kova", &[1], 0)], 0);
    assert_eq!(titles(w.project_titles(true, &None)), expect(&[("kova", true)]));
    w.push_project(project("/srv/site/", &[2], 0));
    w.projects[1].custom_name = Some("Site".to_string());
    assert_eq!(
        titles(w.project_titles(false, &None)),
        expect(&[("<All>", false), ("kova", false), ("Site", true)])
    );
    w.view_mode = ViewMode::Terminal;
    let renaming = Some(RenameProjectState { project_idx: 0, input: "Ko".to_string() });
    let got = w.project_titles(true, &renaming);
    assert!(matches!(got[1], (BarEntry::Filter(ViewMode::Claude), false)));
    assert_eq!(
        titles(got),
        expect(&[("<All>", false), (&format!("<{:?}>", ViewMode::Claude), false), ("<Terminal>", true), ("Ko|", false), ("Site", false)])
    );
}

#[test]
fn default_project_names() {
    assert_eq!(project_name(&project("/home/ana/kova", &[1], 0)), "kova");
    assert_eq!(project_name(&project("kova", &[1], 0)), "kova");
    assert_eq!(project_name(&project("/srv/site/", &[1], 0)), "/srv/site/");
    assert_eq!(project_name(&project("/", &[1], 0)), "/");
    let mut p = project("/a/b", &[1], 0);
    p.custom_name = Some("Mine".to_string());
    assert_eq!(project_name(&p), "Mine");
}

#[test]
fn sent_directories_open_as_tabs_in_order() {
    let mut w = workspace(vec![project("/a", &[1, 2], 0), project("/b", &[3], 0)], 1);
    w.open_projects(vec![7, 8, 9]);
    assert_eq!(tabs(&w), vec![vec![1, 2], vec![3, 7, 8, 9]]);
    assert_eq!(w.active_project, 1);
    assert_eq!(w.projects[1].active_tab, 3);
    assert_eq!(w.projects[0].active_tab, 0);
    assert!(w.projects[1].tabs.iter().all(|t| !t.has_bell));
    w.open_projects(vec![]);
    assert_eq!(tabs(&w), vec![vec![1, 2], vec![3, 7, 8, 9]]);
    assert_eq!(w.projects[1].active_tab, 3);
}

#[test]
fn tab_bar_is_hidden_in_the_overviews() {
    let mut w = workspace(vec![project("/a", &[1, 2, 3], 1), project("/b", &[4], 0)], 0);
    w.ring_bell(0, 2);
    assert_eq!(
        w.tab_bar(false),
        vec![(0, false, false, false), (1, true, false, false), (2, false, false, true)]
    );
    assert_eq!(
        w.tab_bar(true),
        vec![(0, false, false, false), (1, true, true, false), (2, false, false, true)]
    );
    for mode in [ViewMode::All, ViewMode::Claude, ViewMode::Terminal] {
        w.view_mode = mode;
        assert!(w.tab_bar(false).is_empty());
    }
}
