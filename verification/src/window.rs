//! The window's model of projects and tabs: which project and tab are
//! active, switching between them, moving tabs between projects, closing
//! tabs, the project bar and the grid of the overview modes. Tabs are of any
//! type `T`; the window keeps its terminals in them.
use vstd::prelude::*;
use vstd::multiset::Multiset;
use vstd::string::StringExecFns;

use crate::input::{LogicalKey, NamedKey};
use crate::text::{chars_of, string_from_chars};

verus! {

broadcast use {vstd::multiset::group_multiset_axioms, vstd::seq_lib::group_to_multiset_ensures};

/// View mode for the project bar: show a single project, all panes, or
/// filtered views.
#[derive(Clone, Copy, Debug, PartialEq, Eq, Structural)]
pub enum ViewMode {
    /// Normal mode: show active project's tabs.
    Project,
    /// Show all panes from all projects.
    All,
    /// Show only the tabs with a pane running the coding agent.
    Claude,
    /// Show only the tabs with no pane running the coding agent.
    Terminal,
}

/// A tab of a project: what it holds, and whether a bell rang in it since
/// it was last brought to the front.
pub struct Tab<T> {
    pub content: T,
    pub has_bell: bool,
}

/// A new tab holding `content`, with no bell.
pub open spec fn fresh_tab<T>(content: T) -> Tab<T> {
    Tab { content, has_bell: false }
}

/// `tab` with its bell cleared.
pub open spec fn bell_cleared<T>(tab: Tab<T>) -> Tab<T> {
    Tab { has_bell: false, ..tab }
}

impl<T> Tab<T> {
    /// A tab holding `content`, with no bell.
    pub fn new(content: T) -> (t: Self)
        ensures
            t == fresh_tab(content),
    {
        Tab { content, has_bell: false }
    }
}

/// A project: tabs grouped under one root directory.
pub struct Project<T> {
    pub root: String,
    pub tabs: Vec<Tab<T>>,
    pub active_tab: usize,
    pub custom_name: Option<String>,
}

impl<T> Project<T> {
    /// A project holding one tab.
    pub fn new(root: String, tab: T) -> (p: Self)
        ensures
            p.root == root,
            p.tabs@ == seq![fresh_tab(tab)],
            p.active_tab == 0,
            p.custom_name is None,
    {
        let mut tabs: Vec<Tab<T>> = Vec::new();
        tabs.push(Tab::new(tab));
        Project { root, tabs, active_tab: 0, custom_name: None }
    }
}

/// A project with at least one tab and a valid active tab.
pub open spec fn project_wf<T>(p: Project<T>) -> bool {
    p.tabs@.len() > 0 && p.active_tab < p.tabs@.len()
}

/// The tabs of every project, project by project.
pub open spec fn tab_lists<T>(ps: Seq<Project<T>>) -> Seq<Seq<Tab<T>>> {
    Seq::new(ps.len(), |i: int| ps[i].tabs@)
}

/// The root and the custom name of every project.
pub open spec fn project_names<T>(ps: Seq<Project<T>>) -> Seq<(String, Option<String>)> {
    Seq::new(ps.len(), |i: int| (ps[i].root, ps[i].custom_name))
}

/// `after` is `before` with tab `t` of project `ap` made its project's active
/// tab and its bell cleared; every other project and tab is unchanged.
pub open spec fn tab_brought_forward<T>(
    before: Seq<Project<T>>,
    after: Seq<Project<T>>,
    ap: int,
    t: int,
) -> bool {
    &&& after.len() == before.len()
    &&& forall|i: int| 0 <= i < before.len() && i != ap ==> #[trigger] after[i] == before[i]
    &&& after[ap].root == before[ap].root
    &&& after[ap].custom_name == before[ap].custom_name
    &&& after[ap].active_tab == t
    &&& after[ap].tabs@ == before[ap].tabs@.update(t, bell_cleared(before[ap].tabs@[t]))
}

/// The active tab of every project.
pub open spec fn active_tabs<T>(ps: Seq<Project<T>>) -> Seq<usize> {
    Seq::new(ps.len(), |i: int| ps[i].active_tab)
}

/// Every tab of every project, counted with multiplicity.
pub open spec fn all_tabs<T>(lists: Seq<Seq<T>>) -> Multiset<T>
    decreases lists.len(),
{
    if lists.len() == 0 {
        Multiset::empty()
    } else {
        all_tabs(lists.drop_last()).add(lists.last().to_multiset())
    }
}

/// `(a + d)` modulo `n`, the index reached by moving `d` places from `a` in
/// a ring of `n`.
pub open spec fn ring_step(a: int, d: int, n: int) -> int {
    (a + d) % n
}

proof fn lemma_ring_step(x: int, n: int, r: int)
    requires
        n > 0,
        x >= 0 ==> r == x % n,
        x < 0 ==> r == (if (-x) % n == 0 {
            0
        } else {
            n - (-x) % n
        }),
    ensures
        r == x % n,
        0 <= r < n,
{
    if x < 0 {
        let m = (-x) % n;
        let q = (-x) / n;
        vstd::arithmetic::div_mod::lemma_fundamental_div_mod(-x, n);
        assert(-x == n * q + m);
        assert((-q) * n == -(n * q)) by (nonlinear_arith);
        assert((-q - 1) * n == -(n * q) - n) by (nonlinear_arith);
        if m == 0 {
            vstd::arithmetic::div_mod::lemma_fundamental_div_mod_converse(x, n, -q, 0);
        } else {
            vstd::arithmetic::div_mod::lemma_fundamental_div_mod_converse(x, n, -q - 1, n - m);
        }
    }
}

/// Switching `d` tabs away and then `d` tabs back returns to the tab one
/// started from.
pub proof fn lemma_switch_back(a: int, d: int, n: int)
    requires
        0 <= a < n,
    ensures
        ring_step(ring_step(a, d, n), -d, n) == a,
{
    let q = (a + d) / n;
    vstd::arithmetic::div_mod::lemma_fundamental_div_mod(a + d, n);
    let r = (a + d) % n;
    assert(r - d == a - n * q);
    assert(a - n * q == (-q) * n + a) by (nonlinear_arith);
    vstd::arithmetic::div_mod::lemma_fundamental_div_mod_converse(r - d, n, -q, a);
}

proof fn lemma_all_tabs_update<T>(lists: Seq<Seq<T>>, k: int, x: Seq<T>)
    requires
        0 <= k < lists.len(),
    ensures
        all_tabs(lists.update(k, x)).add(lists[k].to_multiset()) == all_tabs(lists).add(
            x.to_multiset(),
        ),
    decreases lists.len(),
{
    let u = lists.update(k, x);
    if k == lists.len() - 1 {
        assert(u.drop_last() =~= lists.drop_last());
        assert(all_tabs(u).add(lists[k].to_multiset()) =~= all_tabs(lists).add(x.to_multiset()));
    } else {
        assert(u.drop_last() =~= lists.drop_last().update(k, x));
        assert(u.last() == lists.last());
        assert(lists.drop_last()[k] == lists[k]);
        lemma_all_tabs_update(lists.drop_last(), k, x);
        assert(all_tabs(u) == all_tabs(u.drop_last()).add(u.last().to_multiset()));
        assert(all_tabs(lists) == all_tabs(lists.drop_last()).add(lists.last().to_multiset()));
        assert forall|v: T| #[trigger] all_tabs(u).add(lists[k].to_multiset()).count(v) == all_tabs(
            lists,
        ).add(x.to_multiset()).count(v) by {
            assert(all_tabs(lists.drop_last().update(k, x)).add(lists[k].to_multiset()).count(v)
                == all_tabs(lists.drop_last()).add(x.to_multiset()).count(v));
        }
        assert(all_tabs(u).add(lists[k].to_multiset()) =~= all_tabs(lists).add(x.to_multiset()));
    }
}

proof fn lemma_all_tabs_remove<T>(lists: Seq<Seq<T>>, k: int)
    requires
        0 <= k < lists.len(),
    ensures
        all_tabs(lists.remove(k)).add(lists[k].to_multiset()) == all_tabs(lists),
    decreases lists.len(),
{
    let r = lists.remove(k);
    if k == lists.len() - 1 {
        assert(r =~= lists.drop_last());
    } else {
        assert(r.drop_last() =~= lists.drop_last().remove(k));
        assert(r.last() == lists.last());
        lemma_all_tabs_remove(lists.drop_last(), k);
        assert(all_tabs(r).add(lists[k].to_multiset()) =~= all_tabs(lists));
    }
}

/// Moving a tab from one project to another loses no tab and duplicates
/// none: the tabs of all projects are the same before and after.
pub proof fn lemma_move_keeps_tabs<T>(lists: Seq<Seq<T>>, src: int, i: int, dst: int)
    requires
        0 <= src < lists.len(),
        0 <= dst < lists.len(),
        src != dst,
        0 <= i < lists[src].len(),
    ensures
        all_tabs(
            lists.update(src, lists[src].remove(i)).update(dst, lists[dst].push(lists[src][i])),
        ) == all_tabs(lists),
{
    let t = lists[src][i];
    let rem = lists[src].remove(i);
    let m1 = lists.update(src, rem);
    let pushed = lists[dst].push(t);
    let m2 = m1.update(dst, pushed);
    lemma_all_tabs_update(lists, src, rem);
    lemma_all_tabs_update(m1, dst, pushed);
    vstd::seq_lib::to_multiset_remove(lists[src], i);
    vstd::seq_lib::to_multiset_build(lists[dst], t);
    assert(m1[dst] == lists[dst]);
    assert(lists[src].to_multiset().count(t) > 0) by {
        vstd::seq_lib::to_multiset_contains(lists[src], t);
        assert(lists[src].contains(t));
    }
    assert forall|v: T| #[trigger] all_tabs(m2).count(v) == all_tabs(lists).count(v) by {
        assert(all_tabs(m2).add(lists[dst].to_multiset()).count(v) == all_tabs(m1).add(
            pushed.to_multiset(),
        ).count(v));
        assert(all_tabs(m1).add(lists[src].to_multiset()).count(v) == all_tabs(lists).add(
            rem.to_multiset(),
        ).count(v));
    }
    assert(all_tabs(m2) =~= all_tabs(lists));
}

/// A tab dropped on another project from a project where it was the only
/// tab, which is then removed, is still the only change: the tabs of all
/// projects are the same before and after.
pub proof fn lemma_drop_last_tab_keeps_tabs<T>(lists: Seq<Seq<T>>, src: int, dst: int)
    requires
        0 <= src < lists.len(),
        0 <= dst < lists.len(),
        src != dst,
        lists[src].len() == 1,
    ensures
        all_tabs(
            lists.update(src, lists[src].remove(0)).update(dst, lists[dst].push(lists[src][0])).remove(
                src,
            ),
        ) == all_tabs(lists),
{
    let m2 = lists.update(src, lists[src].remove(0)).update(dst, lists[dst].push(lists[src][0]));
    lemma_move_keeps_tabs(lists, src, 0, dst);
    lemma_all_tabs_remove(m2, src);
    assert(m2[src] =~= Seq::<T>::empty());
    assert(m2[src].to_multiset() =~= Multiset::<T>::empty());
    assert(all_tabs(m2.remove(src)) =~= all_tabs(lists));
}

/// Removing a tab takes exactly that tab out of the window's tabs.
pub proof fn lemma_remove_tab_takes_one<T>(lists: Seq<Seq<T>>, k: int, i: int)
    requires
        0 <= k < lists.len(),
        0 <= i < lists[k].len(),
    ensures
        all_tabs(lists.update(k, lists[k].remove(i))).insert(lists[k][i]) == all_tabs(lists),
        lists[k].len() == 1 ==> all_tabs(lists.remove(k)).insert(lists[k][i]) == all_tabs(lists),
{
    let t = lists[k][i];
    let rem = lists[k].remove(i);
    lemma_all_tabs_update(lists, k, rem);
    vstd::seq_lib::to_multiset_remove(lists[k], i);
    assert(lists[k].to_multiset().count(t) > 0) by {
        vstd::seq_lib::to_multiset_contains(lists[k], t);
        assert(lists[k].contains(t));
    }
    assert forall|v: T| #[trigger] all_tabs(lists.update(k, rem)).insert(t).count(v) == all_tabs(
        lists,
    ).count(v) by {
        assert(all_tabs(lists.update(k, rem)).add(lists[k].to_multiset()).count(v) == all_tabs(
            lists,
        ).add(rem.to_multiset()).count(v));
    }
    assert(all_tabs(lists.update(k, lists[k].remove(i))).insert(lists[k][i]) =~= all_tabs(lists));
    if lists[k].len() == 1 {
        lemma_all_tabs_remove(lists, k);
        assert(lists[k] =~= seq![lists[k][i]]);
        vstd::seq_lib::to_multiset_build(Seq::<T>::empty(), lists[k][i]);
        assert(Seq::<T>::empty().push(lists[k][i]) =~= lists[k]);
        assert(all_tabs(lists.remove(k)).insert(lists[k][i]) =~= all_tabs(lists));
    }
}

/// Number of filter slots in the project bar, once there are two projects:
/// the all-panes overview, and the agent and terminal overviews when some
/// pane runs the coding agent.
pub open spec fn filter_slots(n: int, has_claude: bool) -> int {
    if n >= 2 {
        if has_claude {
            3
        } else {
            1
        }
    } else {
        0
    }
}

/// The overview mode of filter slot `slot`.
pub open spec fn filter_slot_mode(slot: int) -> ViewMode {
    if slot == 0 {
        ViewMode::All
    } else if slot == 1 {
        ViewMode::Claude
    } else {
        ViewMode::Terminal
    }
}

/// The project in project-bar slot `slot` of a window with `n` projects.
pub open spec fn project_at_slot_spec(n: int, has_claude: bool, slot: int) -> Option<usize> {
    let f = filter_slots(n, has_claude);
    if f <= slot < f + n {
        Some((slot - f) as usize)
    } else {
        None
    }
}

/// Number of tabs of each project.
pub open spec fn tab_counts<T>(ps: Seq<Project<T>>) -> Seq<int> {
    Seq::new(ps.len(), |i: int| ps[i].tabs@.len() as int)
}

pub open spec fn flags_of(v: Seq<Vec<bool>>) -> Seq<Seq<bool>> {
    Seq::new(v.len(), |i: int| v[i]@)
}

/// Whether tab `t` of project `p` is shown in `mode`.
pub open spec fn tab_shown(
    ap: int,
    mode: ViewMode,
    claude: Seq<Seq<bool>>,
    p: int,
    t: int,
) -> bool {
    match mode {
        ViewMode::Project => p == ap,
        ViewMode::All => true,
        ViewMode::Claude => claude[p][t],
        ViewMode::Terminal => !claude[p][t],
    }
}

/// The shown tabs among the first `t` tabs of project `p`.
pub open spec fn project_visible(
    counts: Seq<int>,
    ap: int,
    at: int,
    mode: ViewMode,
    claude: Seq<Seq<bool>>,
    p: int,
    t: int,
) -> Seq<(usize, usize, bool)>
    decreases t,
{
    if t <= 0 {
        Seq::empty()
    } else {
        let rest = project_visible(counts, ap, at, mode, claude, p, t - 1);
        if tab_shown(ap, mode, claude, p, t - 1) {
            rest.push((p as usize, (t - 1) as usize, p == ap && t - 1 == at))
        } else {
            rest
        }
    }
}

/// The shown tabs of the first `p` projects.
pub open spec fn visible_upto(
    counts: Seq<int>,
    ap: int,
    at: int,
    mode: ViewMode,
    claude: Seq<Seq<bool>>,
    p: int,
) -> Seq<(usize, usize, bool)>
    decreases p,
{
    if p <= 0 {
        Seq::empty()
    } else {
        visible_upto(counts, ap, at, mode, claude, p - 1) + project_visible(
            counts,
            ap,
            at,
            mode,
            claude,
            p - 1,
            counts[p - 1],
        )
    }
}

/// The shown tabs of all projects.
pub open spec fn visible_spec(
    counts: Seq<int>,
    ap: int,
    at: int,
    mode: ViewMode,
    claude: Seq<Seq<bool>>,
) -> Seq<(usize, usize, bool)> {
    visible_upto(counts, ap, at, mode, claude, counts.len() as int)
}

/// Within one project, every tab is shown by exactly one of the agent view
/// and the Terminal view: together they show as many tabs as the All view.
pub proof fn lemma_agent_views_split_project(
    counts: Seq<int>,
    ap: int,
    at: int,
    claude: Seq<Seq<bool>>,
    p: int,
    t: int,
)
    requires
        t >= 0,
    ensures
        project_visible(counts, ap, at, ViewMode::Claude, claude, p, t).len() + project_visible(
            counts,
            ap,
            at,
            ViewMode::Terminal,
            claude,
            p,
            t,
        ).len() == project_visible(counts, ap, at, ViewMode::All, claude, p, t).len(),
        project_visible(counts, ap, at, ViewMode::All, claude, p, t).len() == t,
    decreases t,
{
    if t > 0 {
        lemma_agent_views_split_project(counts, ap, at, claude, p, t - 1);
    }
}

/// The agent view and the Terminal view split the tabs between them: a tab
/// is shown by one of them exactly when the other does not show it, and
/// together they list as many tabs as the All view.
pub proof fn lemma_agent_views_split(
    counts: Seq<int>,
    ap: int,
    at: int,
    claude: Seq<Seq<bool>>,
)
    requires
        forall|i: int| 0 <= i < counts.len() ==> #[trigger] counts[i] >= 0,
    ensures
        forall|p: int, t: int|
            #[trigger] tab_shown(ap, ViewMode::Claude, claude, p, t) != tab_shown(
                ap,
                ViewMode::Terminal,
                claude,
                p,
                t,
            ),
        visible_spec(counts, ap, at, ViewMode::Claude, claude).len() + visible_spec(
            counts,
            ap,
            at,
            ViewMode::Terminal,
            claude,
        ).len() == visible_spec(counts, ap, at, ViewMode::All, claude).len(),
{
    lemma_agent_views_split_upto(counts, ap, at, claude, counts.len() as int);
}

proof fn lemma_agent_views_split_upto(
    counts: Seq<int>,
    ap: int,
    at: int,
    claude: Seq<Seq<bool>>,
    p: int,
)
    requires
        0 <= p <= counts.len(),
        forall|i: int| 0 <= i < counts.len() ==> #[trigger] counts[i] >= 0,
    ensures
        visible_upto(counts, ap, at, ViewMode::Claude, claude, p).len() + visible_upto(
            counts,
            ap,
            at,
            ViewMode::Terminal,
            claude,
            p,
        ).len() == visible_upto(counts, ap, at, ViewMode::All, claude, p).len(),
    decreases p,
{
    if p > 0 {
        lemma_agent_views_split_upto(counts, ap, at, claude, p - 1);
        assert(counts[p - 1] >= 0);
        lemma_agent_views_split_project(counts, ap, at, claude, p - 1, counts[p - 1]);
    }
}

/// Columns and rows of the overview grid for `count` tabs, given the
/// column count that suits the window's aspect ratio.
pub open spec fn grid_spec(count: int, cols_estimate: int) -> (int, int) {
    if count <= 1 {
        (1, 1)
    } else {
        let c = if cols_estimate < 1 {
            1
        } else if cols_estimate > count {
            count
        } else {
            cols_estimate
        };
        (c, (count + c - 1) / c)
    }
}

/// The overview grid: at least one column, at most one per tab, and as many
/// rows as it takes to hold every tab.
pub fn grid_dims(count: usize, cols_estimate: usize) -> (r: (usize, usize))
    ensures
        (r.0 as int, r.1 as int) == grid_spec(count as int, cols_estimate as int),
        r.0 >= 1,
        r.1 >= 1,
        r.0 * r.1 >= count,
        count > 1 ==> r.0 * (r.1 - 1) < count,
{
    if count <= 1 {
        return (1, 1);
    }
    let cols = if cols_estimate < 1 {
        1
    } else if cols_estimate > count {
        count
    } else {
        cols_estimate
    };
    let q0 = count / cols;
    let m0 = count % cols;
    proof {
        vstd::arithmetic::div_mod::lemma_fundamental_div_mod(count as int, cols as int);
        if m0 != 0 {
            assert(q0 < count) by (nonlinear_arith)
                requires
                    count == cols * q0 + m0,
                    0 < m0 < cols,
                    cols >= 1,
            ;
        }
    }
    let rows = q0 + if m0 != 0 {
        1
    } else {
        0
    };
    proof {
        let c = cols as int;
        let n = count as int;
        let q = n / c;
        let m = n % c;
        assert(n == c * q + m);
        assert((q + 1) * c == q * c + c) by (nonlinear_arith);
        assert(c * q == q * c) by (nonlinear_arith);
        if m != 0 {
            vstd::arithmetic::div_mod::lemma_fundamental_div_mod_converse(n + c - 1, c, q + 1, m - 1);
        } else {
            vstd::arithmetic::div_mod::lemma_fundamental_div_mod_converse(n + c - 1, c, q, c - 1);
        }
        assert(c * (rows as int) >= n && c * (rows - 1) < n) by (nonlinear_arith)
            requires
                n == c * q + m,
                0 <= m < c,
                rows == q + (if m != 0 { 1int } else { 0int }),
                c >= 1,
        ;
        assert(cols * rows >= count);
        assert(q >= 1) by (nonlinear_arith)
            requires
                n == c * q + m,
                0 <= m < c,
                c <= n,
                c >= 1,
        ;
    }
    (cols, rows)
}

/// The window's projects, which one is active, and the view mode.
pub struct Workspace<T> {
    pub projects: Vec<Project<T>>,
    pub active_project: usize,
    pub view_mode: ViewMode,
}

impl<T> Workspace<T> {
    /// Every project has a tab and a valid active tab, and the active project
    /// exists unless there is none (the window is then closing).
    pub open spec fn wf(&self) -> bool {
        &&& forall|i: int| 0 <= i < self.projects@.len() ==> #[trigger] project_wf(self.projects@[i])
        &&& self.projects@.len() > 0 ==> self.active_project < self.projects@.len()
    }

    /// A workspace with one project.
    pub fn new(first: Project<T>) -> (w: Self)
        requires
            project_wf(first),
        ensures
            w.wf(),
            w.projects@ == seq![first],
            w.active_project == 0,
            w.view_mode == ViewMode::Project,
    {
        let mut projects: Vec<Project<T>> = Vec::new();
        projects.push(first);
        Workspace { projects, active_project: 0, view_mode: ViewMode::Project }
    }

    /// Whether the current view mode shows a grid of all/filtered tabs (as
    /// opposed to a single project's tabs).
    pub fn is_grid_view(&self) -> (r: bool)
        ensures
            r == (self.view_mode != ViewMode::Project),
    {
        self.view_mode != ViewMode::Project
    }

    /// The index of the active tab of the active project.
    pub fn active_tab_idx(&self) -> (i: usize)
        requires
            self.wf(),
            self.projects.len() > 0,
        ensures
            i == self.projects@[self.active_project as int].active_tab,
            i < self.projects@[self.active_project as int].tabs@.len(),
    {
        proof {
            assert(project_wf(self.projects@[self.active_project as int]));
        }
        self.projects[self.active_project].active_tab
    }

    /// The number of filter slots (the overview modes) in front of the
    /// projects in the project bar.
    pub fn filter_slot_count(&self, has_claude: bool) -> (n: usize)
        ensures
            n == filter_slots(self.projects@.len() as int, has_claude),
    {
        if self.projects.len() >= 2 {
            if has_claude {
                3
            } else {
                1
            }
        } else {
            0
        }
    }

    /// The project shown in project-bar slot `slot`, if any.
    pub fn project_at_slot(&self, slot: usize, has_claude: bool) -> (r: Option<usize>)
        ensures
            r == project_at_slot_spec(self.projects@.len() as int, has_claude, slot as int),
    {
        let f = self.filter_slot_count(has_claude);
        if slot >= f && slot - f < self.projects.len() {
            Some(slot - f)
        } else {
            None
        }
    }

    /// A left click on project-bar slot `slot`: a filter slot toggles its
    /// overview mode, a project slot shows that project, and the slot after
    /// the projects (the `+` button) asks for a new project, which is the
    /// result.
    pub fn click_project_bar(&mut self, slot: usize, has_claude: bool) -> (new_project: bool)
        requires
            old(self).wf(),
        ensures
            final(self).wf(),
            final(self).projects@ == old(self).projects@,
            ({
                let n = old(self).projects@.len() as int;
                let f = filter_slots(n, has_claude);
                if slot < f {
                    let target = filter_slot_mode(slot as int);
                    &&& !new_project
                    &&& final(self).view_mode == if old(self).view_mode == target {
                        ViewMode::Project
                    } else {
                        target
                    }
                    &&& final(self).active_project == old(self).active_project
                } else if slot < f + n {
                    &&& !new_project
                    &&& final(self).view_mode == ViewMode::Project
                    &&& final(self).active_project == slot - f
                } else {
                    &&& new_project
                    &&& final(self).view_mode == old(self).view_mode
                    &&& final(self).active_project == old(self).active_project
                }
            }),
    {
        let f = self.filter_slot_count(has_claude);
        if slot < f {
            let target = if slot == 0 {
                ViewMode::All
            } else if slot == 1 {
                ViewMode::Claude
            } else {
                ViewMode::Terminal
            };
            self.view_mode = if self.view_mode == target {
                ViewMode::Project
            } else {
                target
            };
            false
        } else if slot - f < self.projects.len() {
            self.view_mode = ViewMode::Project;
            self.active_project = slot - f;
            false
        } else {
            true
        }
    }

    /// Turns the filter overview modes off when they show no tab.
    pub fn leave_empty_overview(&mut self, visible_count: usize) -> (changed: bool)
        ensures
            changed == (visible_count == 0 && old(self).view_mode != ViewMode::Project),
            final(self).view_mode == if changed {
                ViewMode::Project
            } else {
                old(self).view_mode
            },
            final(self).projects == old(self).projects,
            final(self).active_project == old(self).active_project,
    {
        if visible_count == 0 && self.view_mode != ViewMode::Project {
            self.view_mode = ViewMode::Project;
            true
        } else {
            false
        }
    }

    /// The tabs that the current view shows, in order, as
    /// `(project, tab, is_active)`: the active project's tabs in project
    /// mode; in the overview modes every tab (All), the tabs with a pane
    /// running the coding agent (the agent view), or the tabs without such a
    /// pane (Terminal), project by project, so that these two views split the
    /// tabs between them. `has_claude[p][t]` tells whether tab `t`
    /// of project `p` has a pane running the agent.
    #[verifier::spinoff_prover]
    pub fn visible_tabs(&self, has_claude: &Vec<Vec<bool>>) -> (v: Vec<(usize, usize, bool)>)
        requires
            self.wf(),
            self.projects.len() > 0,
            has_claude@.len() == self.projects@.len(),
            forall|p: int|
                0 <= p < self.projects@.len() ==> (#[trigger] has_claude@[p])@.len()
                    == self.projects@[p].tabs@.len(),
        ensures
            v@ == visible_spec(
                tab_counts(self.projects@),
                self.active_project as int,
                self.projects@[self.active_project as int].active_tab as int,
                self.view_mode,
                flags_of(has_claude@),
            ),
    {
        let ghost counts = tab_counts(self.projects@);
        let ghost cl = flags_of(has_claude@);
        let ap = self.active_project;
        proof {
            assert(project_wf(self.projects@[ap as int]));
        }
        let at = self.projects[ap].active_tab;
        let np = self.projects.len();
        let mut v: Vec<(usize, usize, bool)> = Vec::new();
        let mut p: usize = 0;
        while p < np
            invariant
                np == self.projects@.len(),
                counts == tab_counts(self.projects@),
                cl == flags_of(has_claude@),
                has_claude@.len() == np,
                forall|q: int|
                    0 <= q < np ==> (#[trigger] has_claude@[q])@.len()
                        == self.projects@[q].tabs@.len(),
                ap == self.active_project,
                at == self.projects@[ap as int].active_tab,
                p <= np,
                v@ == visible_upto(counts, ap as int, at as int, self.view_mode, cl, p as int),
            decreases np - p,
        {
            let nt = self.projects[p].tabs.len();
            assert(has_claude@[p as int]@.len() == nt);
            let ghost before = v@;
            let mut t: usize = 0;
            while t < nt
                invariant
                    np == self.projects@.len(),
                    counts == tab_counts(self.projects@),
                    cl == flags_of(has_claude@),
                    has_claude@.len() == np,
                    p < np,
                    nt == self.projects@[p as int].tabs@.len(),
                    has_claude@[p as int]@.len() == nt,
                    t <= nt,
                    v@ == before + project_visible(
                        counts,
                        ap as int,
                        at as int,
                        self.view_mode,
                        cl,
                        p as int,
                        t as int,
                    ),
                decreases nt - t,
            {
                let shown = match self.view_mode {
                    ViewMode::Project => p == ap,
                    ViewMode::All => true,
                    ViewMode::Claude => has_claude[p][t],
                    ViewMode::Terminal => !has_claude[p][t],
                };
                if shown {
                    v.push((p, t, p == ap && t == at));
                }
                t = t + 1;
                proof {
                    assert(v@ =~= before + project_visible(
                        counts,
                        ap as int,
                        at as int,
                        self.view_mode,
                        cl,
                        p as int,
                        t as int,
                    ));
                }
            }
            p = p + 1;
        }
        v
    }

    /// Moves the active tab of the active project by `delta` places, cycling
    /// around, and clears the bell of the tab reached; returns the new active
    /// tab.
    pub fn switch_tab_relative(&mut self, delta: i32) -> (t: usize)
        requires
            old(self).wf(),
            old(self).projects.len() > 0,
        ensures
            final(self).wf(),
            ({
                let ap = old(self).active_project as int;
                let p = old(self).projects@[ap];
                &&& t == ring_step(p.active_tab as int, delta as int, p.tabs@.len() as int)
                &&& tab_brought_forward(old(self).projects@, final(self).projects@, ap, t as int)
                &&& final(self).active_project == old(self).active_project
                &&& final(self).view_mode == old(self).view_mode
            }),
    {
        let ap = self.active_project;
        proof {
            assert(project_wf(self.projects@[ap as int]));
        }
        let len = self.projects[ap].tabs.len() as i128;
        let cur = self.projects[ap].active_tab as i128;
        let x = cur + delta as i128;
        let new_idx: i128 = if x >= 0 {
            x % len
        } else {
            let m = (-x) % len;
            if m == 0 {
                0
            } else {
                len - m
            }
        };
        proof {
            lemma_ring_step(x as int, len as int, new_idx as int);
        }
        let t = new_idx as usize;
        self.bring_forward(t);
        t
    }

    /// Makes tab `t` of the active project the active tab and clears its
    /// bell.
    fn bring_forward(&mut self, t: usize)
        requires
            old(self).wf(),
            old(self).projects.len() > 0,
            t < old(self).projects@[old(self).active_project as int].tabs@.len(),
        ensures
            final(self).wf(),
            tab_brought_forward(
                old(self).projects@,
                final(self).projects@,
                old(self).active_project as int,
                t as int,
            ),
            final(self).active_project == old(self).active_project,
            final(self).view_mode == old(self).view_mode,
    {
        let ap = self.active_project;
        self.projects[ap].active_tab = t;
        self.projects[ap].tabs[t].has_bell = false;
        proof {
            assert(self.projects@[ap as int].tabs@ =~= old(self).projects@[ap as int].tabs@.update(
                t as int,
                bell_cleared(old(self).projects@[ap as int].tabs@[t as int]),
            ));
            assert forall|i: int| 0 <= i < self.projects@.len() implies #[trigger] project_wf(
                self.projects@[i],
            ) by {
                assert(project_wf(old(self).projects@[i]));
            }
        }
    }

    /// Activates tab `idx` of the active project, clearing its bell, if it
    /// exists.
    pub fn switch_tab(&mut self, idx: usize) -> (switched: bool)
        requires
            old(self).wf(),
            old(self).projects.len() > 0,
        ensures
            final(self).wf(),
            ({
                let ap = old(self).active_project as int;
                let p = old(self).projects@[ap];
                &&& switched == (idx < p.tabs@.len())
                &&& switched ==> tab_brought_forward(
                    old(self).projects@,
                    final(self).projects@,
                    ap,
                    idx as int,
                )
                &&& !switched ==> final(self).projects@ == old(self).projects@
                &&& final(self).active_project == old(self).active_project
                &&& final(self).view_mode == old(self).view_mode
            }),
    {
        let ap = self.active_project;
        if idx < self.projects[ap].tabs.len() {
            self.bring_forward(idx);
            true
        } else {
            false
        }
    }

    /// Records that a bell rang in tab `t` of project `p`; returns whether
    /// the tab had no bell before (a new bell, which may be notified).
    pub fn ring_bell(&mut self, p: usize, t: usize) -> (new_bell: bool)
        requires
            old(self).wf(),
            p < old(self).projects@.len(),
            t < old(self).projects@[p as int].tabs@.len(),
        ensures
            final(self).wf(),
            new_bell == !old(self).projects@[p as int].tabs@[t as int].has_bell,
            final(self).projects@ == old(self).projects@.update(
                p as int,
                final(self).projects@[p as int],
            ),
            final(self).projects@[p as int].tabs@ == old(self).projects@[p as int].tabs@.update(
                t as int,
                (Tab { has_bell: true, ..old(self).projects@[p as int].tabs@[t as int] }),
            ),
            final(self).projects@[p as int].root == old(self).projects@[p as int].root,
            final(self).projects@[p as int].custom_name == old(self).projects@[p as int].custom_name,
            final(self).projects@[p as int].active_tab == old(self).projects@[p as int].active_tab,
            final(self).active_project == old(self).active_project,
            final(self).view_mode == old(self).view_mode,
    {
        let had = self.projects[p].tabs[t].has_bell;
        self.projects[p].tabs[t].has_bell = true;
        proof {
            assert(self.projects@[p as int].tabs@ =~= old(self).projects@[p as int].tabs@.update(
                t as int,
                Tab { has_bell: true, ..old(self).projects@[p as int].tabs@[t as int] },
            ));
            assert(self.projects@ =~= old(self).projects@.update(p as int, self.projects@[p as int]));
            assert forall|i: int| 0 <= i < self.projects@.len() implies #[trigger] project_wf(
                self.projects@[i],
            ) by {
                assert(project_wf(old(self).projects@[i]));
            }
        }
        !had
    }

    /// Switches between the view of every tab and the active project's tabs;
    /// only with two projects or more. Returns whether the view changed.
    pub fn toggle_all_view(&mut self) -> (changed: bool)
        ensures
            changed == (old(self).projects@.len() >= 2),
            final(self).view_mode == if !changed {
                old(self).view_mode
            } else if old(self).view_mode == ViewMode::All {
                ViewMode::Project
            } else {
                ViewMode::All
            },
            final(self).projects == old(self).projects,
            final(self).active_project == old(self).active_project,
    {
        if self.projects.len() >= 2 {
            self.view_mode = if self.view_mode == ViewMode::All {
                ViewMode::Project
            } else {
                ViewMode::All
            };
            true
        } else {
            false
        }
    }

    /// Stores the name committed for project `idx` (none: back to the default
    /// name); returns whether that project exists.
    pub fn rename_project(&mut self, idx: usize, name: Option<String>) -> (renamed: bool)
        requires
            old(self).wf(),
        ensures
            final(self).wf(),
            renamed == (idx < old(self).projects@.len()),
            renamed ==> final(self).projects@ == old(self).projects@.update(
                idx as int,
                (Project { custom_name: name, ..old(self).projects@[idx as int] }),
            ),
            !renamed ==> final(self).projects@ == old(self).projects@,
            final(self).active_project == old(self).active_project,
            final(self).view_mode == old(self).view_mode,
    {
        if idx < self.projects.len() {
            self.projects[idx].custom_name = name;
            proof {
                assert(self.projects@ =~= old(self).projects@.update(
                    idx as int,
                    Project { custom_name: name, ..old(self).projects@[idx as int] },
                ));
                assert forall|i: int| 0 <= i < self.projects@.len() implies #[trigger] project_wf(
                    self.projects@[i],
                ) by {
                    assert(project_wf(old(self).projects@[i]));
                }
            }
            true
        } else {
            false
        }
    }

    /// Adds a tab to the active project and activates it.
    pub fn push_tab(&mut self, tab: T)
        requires
            old(self).wf(),
            old(self).projects.len() > 0,
        ensures
            final(self).wf(),
            ({
                let ap = old(self).active_project as int;
                let p = old(self).projects@[ap];
                &&& final(self).projects@.len() == old(self).projects@.len()
                &&& tab_lists(final(self).projects@) == tab_lists(old(self).projects@).update(
                    ap,
                    p.tabs@.push(fresh_tab(tab)),
                )
                &&& forall|i: int|
                    0 <= i < final(self).projects@.len() ==> (#[trigger] final(self).projects@[i]).root
                        == old(self).projects@[i].root && final(self).projects@[i].custom_name
                        == old(self).projects@[i].custom_name && final(self).projects@[i].active_tab
                        == if i == ap {
                        p.tabs@.len() as usize
                    } else {
                        old(self).projects@[i].active_tab
                    }
                &&& final(self).active_project == old(self).active_project
                &&& final(self).view_mode == old(self).view_mode
            }),
    {
        let ap = self.active_project;
        self.projects[ap].tabs.push(Tab::new(tab));
        let n = self.projects[ap].tabs.len();
        self.projects[ap].active_tab = n - 1;
        proof {
            assert(tab_lists(self.projects@) =~= tab_lists(old(self).projects@).update(
                ap as int,
                old(self).projects@[ap as int].tabs@.push(fresh_tab(tab)),
            ));
            assert forall|i: int| 0 <= i < self.projects@.len() implies #[trigger] project_wf(
                self.projects@[i],
            ) by {
                assert(project_wf(old(self).projects@[i]));
            }
        }
    }

    /// Opens each of `tabs`, in order, as a new tab of the active project
    /// (the directories that other instances send); the last one becomes
    /// the active tab.
    pub fn open_projects(&mut self, tabs: Vec<T>)
        requires
            old(self).wf(),
            old(self).projects.len() > 0,
        ensures
            final(self).wf(),
            ({
                let ap = old(self).active_project as int;
                let p = old(self).projects@[ap];
                &&& final(self).projects@.len() == old(self).projects@.len()
                &&& tab_lists(final(self).projects@) == tab_lists(old(self).projects@).update(
                    ap,
                    p.tabs@ + tabs@.map_values(|t: T| fresh_tab(t)),
                )
                &&& forall|i: int|
                    0 <= i < final(self).projects@.len() ==> (#[trigger] final(self).projects@[i]).root
                        == old(self).projects@[i].root && final(self).projects@[i].custom_name
                        == old(self).projects@[i].custom_name && final(self).projects@[i].active_tab
                        == if i == ap && tabs@.len() > 0 {
                        (p.tabs@.len() + tabs@.len() - 1) as usize
                    } else {
                        old(self).projects@[i].active_tab
                    }
                &&& final(self).active_project == old(self).active_project
                &&& final(self).view_mode == old(self).view_mode
            }),
    {
        let ghost ap = self.active_project as int;
        let ghost p0 = self.projects@[ap];
        let ghost all = tabs@;
        let mut rest = tabs;
        assert(all.len() == rest.len());
        let mut k: usize = 0;
        while rest.len() > 0
            invariant
                self.wf(),
                self.projects@.len() > 0,
                self.active_project == ap,
                self.view_mode == old(self).view_mode,
                self.projects@.len() == old(self).projects@.len(),
                0 <= k <= all.len(),
                all.len() <= usize::MAX,
                rest@ == all.subrange(k as int, all.len() as int),
                tab_lists(self.projects@) == tab_lists(old(self).projects@).update(
                    ap,
                    p0.tabs@ + all.subrange(0, k as int).map_values(|t: T| fresh_tab(t)),
                ),
                forall|i: int|
                    0 <= i < self.projects@.len() ==> (#[trigger] self.projects@[i]).root
                        == old(self).projects@[i].root && self.projects@[i].custom_name
                        == old(self).projects@[i].custom_name && self.projects@[i].active_tab
                        == if i == ap && k > 0 {
                        (p0.tabs@.len() + k - 1) as usize
                    } else {
                        old(self).projects@[i].active_tab
                    },
            decreases rest.len(),
        {
            let t = rest.remove(0);
            let ghost before = tab_lists(self.projects@);
            let ghost cur = self.projects@[ap].tabs@;
            proof {
                assert(t == all[k as int]);
                assert(before[ap] == cur);
                assert(cur == p0.tabs@ + all.subrange(0, k as int).map_values(|t: T| fresh_tab(t)));
            }
            self.push_tab(t);
            k = k + 1;
            proof {
                assert(rest@ =~= all.subrange(k as int, all.len() as int));
                assert(cur.push(fresh_tab(t)) =~= p0.tabs@ + all.subrange(0, k as int).map_values(
                    |t: T| fresh_tab(t),
                ));
                assert(tab_lists(self.projects@) =~= tab_lists(old(self).projects@).update(
                    ap,
                    p0.tabs@ + all.subrange(0, k as int).map_values(|t: T| fresh_tab(t)),
                ));
            }
        }
        proof {
            assert(all.subrange(0, k as int) =~= all);
        }
    }

    /// Adds a project and activates it.
    pub fn push_project(&mut self, project: Project<T>)
        requires
            old(self).wf(),
            project_wf(project),
        ensures
            final(self).wf(),
            final(self).projects@ == old(self).projects@.push(project),
            final(self).active_project == old(self).projects@.len(),
            final(self).view_mode == old(self).view_mode,
    {
        self.projects.push(project);
        self.active_project = self.projects.len() - 1;
        proof {
            assert forall|i: int| 0 <= i < self.projects@.len() implies #[trigger] project_wf(
                self.projects@[i],
            ) by {
                if i < old(self).projects@.len() {
                    assert(project_wf(old(self).projects@[i]));
                }
            }
        }
    }

    /// Moves the active tab of the active project to the project `delta`
    /// places away (cycling), where it becomes the active tab, and activates
    /// that project. Nothing happens when there is a single project, when the
    /// step lands on the same project, or when the tab is its project's only
    /// one.
    #[verifier::spinoff_prover]
    pub fn move_tab_to_project(&mut self, delta: i32) -> (moved: bool)
        requires
            old(self).wf(),
        ensures
            final(self).wf(),
            ({
                let n = old(self).projects@.len() as int;
                let src = old(self).active_project as int;
                let dst = ring_step(src, delta as int, n);
                let sp = old(self).projects@[src];
                let dp = old(self).projects@[dst];
                let ti = sp.active_tab as int;
                &&& moved == (n >= 2 && src != dst && sp.tabs@.len() > 1)
                &&& !moved ==> *final(self) == *old(self)
                &&& moved ==> {
                    &&& final(self).projects@.len() == n
                    &&& tab_lists(final(self).projects@) == tab_lists(old(self).projects@).update(
                        src,
                        sp.tabs@.remove(ti),
                    ).update(dst, dp.tabs@.push(sp.tabs@[ti]))
                    &&& forall|i: int|
                        0 <= i < n ==> (#[trigger] final(self).projects@[i]).root == old(
                            self,
                        ).projects@[i].root && final(self).projects@[i].custom_name == old(
                            self,
                        ).projects@[i].custom_name && final(self).projects@[i].active_tab == if i
                            == src {
                            if ti < sp.tabs@.len() - 2 {
                                ti as usize
                            } else {
                                (sp.tabs@.len() - 2) as usize
                            }
                        } else if i == dst {
                            dp.tabs@.len() as usize
                        } else {
                            old(self).projects@[i].active_tab
                        }
                    &&& final(self).active_project == dst
                    &&& final(self).view_mode == old(self).view_mode
                }
            }),
    {
        let n = self.projects.len();
        if n < 2 {
            return false;
        }
        let src = self.active_project;
        let x = (src as i128) + (delta as i128);
        let ni = n as i128;
        let d: i128 = if x >= 0 {
            x % ni
        } else {
            let m = (-x) % ni;
            if m == 0 {
                0
            } else {
                ni - m
            }
        };
        proof {
            lemma_ring_step(x as int, ni as int, d as int);
        }
        let dst = d as usize;
        if src == dst {
            return false;
        }
        proof {
            assert(project_wf(self.projects@[src as int]));
            assert(project_wf(self.projects@[dst as int]));
        }
        if self.projects[src].tabs.len() <= 1 {
            return false;
        }
        let tab_idx = self.projects[src].active_tab;
        let tab = self.projects[src].tabs.remove(tab_idx);
        let remaining = self.projects[src].tabs.len();
        self.projects[src].active_tab = if tab_idx < remaining - 1 {
            tab_idx
        } else {
            remaining - 1
        };
        self.projects[dst].tabs.push(tab);
        let dl = self.projects[dst].tabs.len();
        self.projects[dst].active_tab = dl - 1;
        self.active_project = dst;
        proof {
            let sp = old(self).projects@[src as int];
            let dp = old(self).projects@[dst as int];
            assert(tab_lists(self.projects@) =~= tab_lists(old(self).projects@).update(
                src as int,
                sp.tabs@.remove(tab_idx as int),
            ).update(dst as int, dp.tabs@.push(sp.tabs@[tab_idx as int])));
            assert forall|i: int| 0 <= i < self.projects@.len() implies #[trigger] project_wf(
                self.projects@[i],
            ) by {
                assert(project_wf(old(self).projects@[i]));
            }
        }
        true
    }

    /// Drops tab `src_tab` of project `src_project` (dragged there) on project
    /// `target`, where it becomes the active tab, and activates that project.
    /// A project left without tabs is removed, and the overview modes end when
    /// fewer than two projects remain. Nothing happens for a target that is
    /// not another existing project.
    #[verifier::rlimit(40)]
    #[verifier::spinoff_prover]
    pub fn drop_tab(&mut self, src_project: usize, src_tab: usize, target: usize) -> (moved: bool)
        requires
            old(self).wf(),
            src_project < old(self).projects@.len(),
            src_tab < old(self).projects@[src_project as int].tabs@.len(),
        ensures
            final(self).wf(),
            ({
                let n = old(self).projects@.len() as int;
                let sp = old(self).projects@[src_project as int];
                let lists = tab_lists(old(self).projects@);
                let tab = sp.tabs@[src_tab as int];
                let after = lists.update(src_project as int, sp.tabs@.remove(src_tab as int)).update(
                    target as int,
                    lists[target as int].push(tab),
                );
                &&& moved == (target < n && target != src_project)
                &&& !moved ==> *final(self) == *old(self)
                &&& (moved && sp.tabs@.len() > 1) ==> {
                    &&& tab_lists(final(self).projects@) == after
                    &&& project_names(final(self).projects@) == project_names(old(self).projects@)
                    &&& active_tabs(final(self).projects@) == active_tabs(old(self).projects@).update(
                        src_project as int,
                        (if sp.active_tab < sp.tabs@.len() - 2 {
                            sp.active_tab as int
                        } else {
                            sp.tabs@.len() - 2
                        }) as usize,
                    ).update(target as int, old(self).projects@[target as int].tabs@.len() as usize)
                    &&& final(self).active_project == target
                    &&& final(self).view_mode == old(self).view_mode
                }
                &&& (moved && sp.tabs@.len() == 1) ==> {
                    let t = if src_project < target {
                        target - 1
                    } else {
                        target as int
                    };
                    &&& tab_lists(final(self).projects@) == after.remove(src_project as int)
                    &&& project_names(final(self).projects@) == project_names(
                        old(self).projects@,
                    ).remove(src_project as int)
                    &&& active_tabs(final(self).projects@) == active_tabs(old(self).projects@).update(
                        target as int,
                        old(self).projects@[target as int].tabs@.len() as usize,
                    ).remove(src_project as int)
                    &&& final(self).active_project == t
                    &&& final(self).view_mode == if n - 1 < 2 {
                        ViewMode::Project
                    } else {
                        old(self).view_mode
                    }
                }
            }),
    {
        let n = self.projects.len();
        if target >= n || target == src_project {
            return false;
        }
        proof {
            assert(project_wf(self.projects@[src_project as int]));
            assert(project_wf(self.projects@[target as int]));
        }
        let ghost lists = tab_lists(self.projects@);
        let tab = self.projects[src_project].tabs.remove(src_tab);
        let remaining = self.projects[src_project].tabs.len();
        let cur = self.projects[src_project].active_tab;
        self.projects[src_project].active_tab = if remaining == 0 {
            0
        } else if cur < remaining - 1 {
            cur
        } else {
            remaining - 1
        };
        let ghost mid = tab_lists(self.projects@);
        if remaining == 0 {
            let _empty = self.projects.remove(src_project);
            if self.projects.len() < 2 {
                self.view_mode = ViewMode::Project;
            }
            let adjusted = if src_project < target {
                target - 1
            } else {
                target
            };
            self.projects[adjusted].tabs.push(tab);
            let dl = self.projects[adjusted].tabs.len();
            self.projects[adjusted].active_tab = dl - 1;
            self.active_project = adjusted;
            proof {
                let sp = old(self).projects@[src_project as int];
                let after = lists.update(src_project as int, sp.tabs@.remove(src_tab as int)).update(
                    target as int,
                    lists[target as int].push(sp.tabs@[src_tab as int]),
                );
                assert(tab_lists(self.projects@) =~= after.remove(src_project as int));
                assert(project_names(self.projects@) =~= project_names(old(self).projects@).remove(
                    src_project as int,
                ));
                assert(active_tabs(self.projects@) =~= active_tabs(old(self).projects@).update(
                    target as int,
                    old(self).projects@[target as int].tabs@.len() as usize,
                ).remove(src_project as int));
                assert forall|i: int| 0 <= i < self.projects@.len() implies #[trigger] project_wf(
                    self.projects@[i],
                ) by {
                    if i < src_project {
                        assert(project_wf(old(self).projects@[i]));
                    } else {
                        assert(project_wf(old(self).projects@[i + 1]));
                    }
                }
            }
        } else {
            self.projects[target].tabs.push(tab);
            let dl = self.projects[target].tabs.len();
            self.projects[target].active_tab = dl - 1;
            self.active_project = target;
            proof {
                let sp = old(self).projects@[src_project as int];
                assert(tab_lists(self.projects@) =~= lists.update(
                    src_project as int,
                    sp.tabs@.remove(src_tab as int),
                ).update(target as int, lists[target as int].push(sp.tabs@[src_tab as int])));
                assert(project_names(self.projects@) =~= project_names(old(self).projects@));
                assert(active_tabs(self.projects@) =~= active_tabs(old(self).projects@).update(
                    src_project as int,
                    (if sp.active_tab < sp.tabs@.len() - 2 {
                        sp.active_tab as int
                    } else {
                        sp.tabs@.len() - 2
                    }) as usize,
                ).update(target as int, old(self).projects@[target as int].tabs@.len() as usize));
                assert forall|i: int| 0 <= i < self.projects@.len() implies #[trigger] project_wf(
                    self.projects@[i],
                ) by {
                    assert(project_wf(old(self).projects@[i]));
                }
            }
        }
        true
    }

    /// Removes the active tab of the active project once it has no pane left.
    /// A project left without tabs is removed; the project that followed it
    /// (or, when it was the last, the new last one) becomes active. Returns
    /// the tab, and whether no project is left (the window then closes).
    #[verifier::rlimit(30)]
    #[verifier::spinoff_prover]
    pub fn remove_active_tab(&mut self) -> (r: (Tab<T>, bool))
        requires
            old(self).wf(),
            old(self).projects.len() > 0,
        ensures
            final(self).wf(),
            ({
                let ap = old(self).active_project as int;
                let p = old(self).projects@[ap];
                let lists = tab_lists(old(self).projects@);
                let n = old(self).projects@.len() as int;
                &&& r.0 == p.tabs@[p.active_tab as int]
                &&& r.1 == (n == 1 && p.tabs@.len() == 1)
                &&& p.tabs@.len() > 1 ==> {
                    &&& tab_lists(final(self).projects@) == lists.update(
                        ap,
                        p.tabs@.remove(p.active_tab as int),
                    )
                    &&& project_names(final(self).projects@) == project_names(old(self).projects@)
                    &&& active_tabs(final(self).projects@) == active_tabs(old(self).projects@).update(
                        ap,
                        (if p.active_tab < p.tabs@.len() - 2 {
                            p.active_tab as int
                        } else {
                            p.tabs@.len() - 2
                        }) as usize,
                    )
                    &&& final(self).active_project == old(self).active_project
                    &&& final(self).view_mode == old(self).view_mode
                }
                &&& p.tabs@.len() == 1 ==> {
                    &&& tab_lists(final(self).projects@) == lists.remove(ap)
                    &&& project_names(final(self).projects@) == project_names(old(self).projects@).remove(ap)
                    &&& active_tabs(final(self).projects@) == active_tabs(old(self).projects@).remove(ap)
                    &&& n > 1 ==> final(self).active_project == if ap < n - 2 {
                        ap
                    } else {
                        n - 2
                    }
                    &&& final(self).view_mode == if n == 1 || n - 1 >= 2 {
                        old(self).view_mode
                    } else {
                        ViewMode::Project
                    }
                }
            }),
    {
        let ap = self.active_project;
        proof {
            assert(project_wf(self.projects@[ap as int]));
        }
        let ghost lists = tab_lists(self.projects@);
        let at = self.projects[ap].active_tab;
        let tab = self.projects[ap].tabs.remove(at);
        let remaining = self.projects[ap].tabs.len();
        if remaining == 0 {
            let _empty = self.projects.remove(ap);
            let left = self.projects.len();
            proof {
                assert(project_names(self.projects@) =~= project_names(old(self).projects@).remove(ap as int));
                assert(active_tabs(self.projects@) =~= active_tabs(old(self).projects@).remove(ap as int));
            }
            if left == 0 {
                proof {
                    assert(tab_lists(self.projects@) =~= lists.remove(ap as int));
                }
                return (tab, true);
            }
            if left < 2 {
                self.view_mode = ViewMode::Project;
            }
            self.active_project = if ap < left - 1 {
                ap
            } else {
                left - 1
            };
            proof {
                assert(tab_lists(self.projects@) =~= lists.remove(ap as int));
                assert forall|i: int| 0 <= i < self.projects@.len() implies #[trigger] project_wf(
                    self.projects@[i],
                ) by {
                    if i < ap {
                        assert(project_wf(old(self).projects@[i]));
                    } else {
                        assert(project_wf(old(self).projects@[i + 1]));
                    }
                }
            }
            (tab, false)
        } else {
            self.projects[ap].active_tab = if at < remaining - 1 {
                at
            } else {
                remaining - 1
            };
            proof {
                assert(tab_lists(self.projects@) =~= lists.update(
                    ap as int,
                    old(self).projects@[ap as int].tabs@.remove(at as int),
                ));
                assert(project_names(self.projects@) =~= project_names(old(self).projects@));
                assert(active_tabs(self.projects@) =~= active_tabs(old(self).projects@).update(
                    ap as int,
                    (if at < old(self).projects@[ap as int].tabs@.len() - 2 {
                        at as int
                    } else {
                        old(self).projects@[ap as int].tabs@.len() - 2
                    }) as usize,
                ));
                assert forall|i: int| 0 <= i < self.projects@.len() implies #[trigger] project_wf(
                    self.projects@[i],
                ) by {
                    assert(project_wf(old(self).projects@[i]));
                }
            }
            (tab, false)
        }
    }
}

/// The text of an input line after a key press: Backspace removes the last
/// character, a key with text appends it, other keys change nothing.
pub open spec fn edited_text(text: Seq<char>, key: LogicalKey) -> Seq<char> {
    match key {
        LogicalKey::Named(NamedKey::Backspace) => if text.len() > 0 {
            text.drop_last()
        } else {
            text
        },
        LogicalKey::Character(s) => text + s@,
        _ => text,
    }
}

/// The name given by a committed input line: none for an empty line.
pub open spec fn committed_name(text: Seq<char>) -> Option<Seq<char>> {
    if text.len() == 0 {
        None
    } else {
        Some(text)
    }
}

pub open spec fn opt_view(o: Option<String>) -> Option<Seq<char>> {
    match o {
        Some(s) => Some(s@),
        None => None,
    }
}

/// Applies a key press to an input line.
pub fn edit_text(text: &mut String, key: &LogicalKey)
    ensures
        final(text)@ == edited_text(old(text)@, *key),
{
    match key {
        LogicalKey::Named(NamedKey::Backspace) => {
            let chars = chars_of(text.as_str());
            if chars.len() > 0 {
                let mut kept: Vec<char> = Vec::new();
                let mut k: usize = 0;
                while k < chars.len() - 1
                    invariant
                        chars.len() > 0,
                        k <= chars.len() - 1,
                        kept@ == chars@.subrange(0, k as int),
                    decreases chars.len() - 1 - k,
                {
                    kept.push(chars[k]);
                    k = k + 1;
                    proof {
                        assert(kept@ =~= chars@.subrange(0, k as int));
                    }
                }
                *text = string_from_chars(&kept);
                proof {
                    assert(kept@ =~= old(text)@.drop_last());
                }
            }
        },
        LogicalKey::Character(s) => {
            text.append(s.as_str());
        },
        _ => {},
    }
}

/// The name an input line commits.
pub fn commit_text(text: String) -> (name: Option<String>)
    ensures
        opt_view(name) == committed_name(text@),
{
    if text.as_str().is_empty() {
        None
    } else {
        Some(text)
    }
}

/// Renaming of a project from the project bar.
pub struct RenameProjectState {
    pub project_idx: usize,
    pub input: String,
}

/// The index just after the last `/` of `path` among its first `k`
/// characters (0 when there is none).
pub open spec fn after_last_slash(path: Seq<char>, k: int) -> int
    decreases k,
{
    if k <= 0 {
        0
    } else if path[k - 1] == '/' {
        k
    } else {
        after_last_slash(path, k - 1)
    }
}

/// The last component of a path: what follows its last `/`, or the whole
/// path when nothing follows it.
pub open spec fn last_component(path: Seq<char>) -> Seq<char> {
    let k = after_last_slash(path, path.len() as int);
    if k < path.len() {
        path.subrange(k, path.len() as int)
    } else {
        path
    }
}

/// The name of a project in the project bar: its custom name, else the last
/// component of its root directory.
pub open spec fn project_name_spec(root: Seq<char>, custom: Option<Seq<char>>) -> Seq<char> {
    match custom {
        Some(n) => n,
        None => last_component(root),
    }
}

/// An entry of the project bar: a filter, shown by the name of its view,
/// or a project, shown by its title.
#[derive(Clone, Debug)]
pub enum BarEntry {
    Filter(ViewMode),
    Project(String),
}

/// A project-bar entry as a value: the filter's view, or the project's
/// title.
pub open spec fn bar_entry_view(e: BarEntry) -> (Option<ViewMode>, Seq<char>) {
    match e {
        BarEntry::Filter(m) => (Some(m), Seq::empty()),
        BarEntry::Project(t) => (None, t@),
    }
}

/// The entries of the project bar as values, each with whether it is
/// highlighted.
pub open spec fn bar_views(v: Seq<(BarEntry, bool)>) -> Seq<((Option<ViewMode>, Seq<char>), bool)> {
    Seq::new(v.len(), |i: int| (bar_entry_view(v[i].0), v[i].1))
}

/// The entries of the project bar, each with whether it is highlighted: with
/// two projects or more, the All filter and, when some pane runs the coding
/// agent, the agent and Terminal filters; then every project by name, the
/// one being renamed showing its input and a `|` cursor. A filter is
/// highlighted when its view is shown, a project when it is the active one
/// in project mode.
pub open spec fn project_titles_spec<T>(
    ps: Seq<Project<T>>,
    ap: int,
    mode: ViewMode,
    has_claude: bool,
    renaming: Option<(usize, Seq<char>)>,
) -> Seq<((Option<ViewMode>, Seq<char>), bool)> {
    let filters: Seq<((Option<ViewMode>, Seq<char>), bool)> = if ps.len() >= 2 {
        if has_claude {
            seq![
                ((Some(ViewMode::All), Seq::empty()), mode == ViewMode::All),
                ((Some(ViewMode::Claude), Seq::empty()), mode == ViewMode::Claude),
                ((Some(ViewMode::Terminal), Seq::empty()), mode == ViewMode::Terminal),
            ]
        } else {
            seq![((Some(ViewMode::All), Seq::empty()), mode == ViewMode::All)]
        }
    } else {
        Seq::empty()
    };
    filters + Seq::new(ps.len(), |i: int| project_entry(ps, ap, mode, renaming, i))
}

/// The project-bar entry of project `i` (see [`project_titles_spec`]).
pub open spec fn project_entry<T>(
    ps: Seq<Project<T>>,
    ap: int,
    mode: ViewMode,
    renaming: Option<(usize, Seq<char>)>,
    i: int,
) -> ((Option<ViewMode>, Seq<char>), bool) {
    (
        (
            None,
            match renaming {
                Some((r, input)) if r == i => input.push('|'),
                _ => project_name_spec(ps[i].root@, opt_view(ps[i].custom_name)),
            },
        ),
        mode == ViewMode::Project && i == ap,
    )
}

/// The last component of `path` (see [`last_component`]).
fn last_component_of(path: &str) -> (s: String)
    ensures
        s@ == last_component(path@),
{
    let cs = chars_of(path);
    let mut k: usize = 0;
    let mut i: usize = 0;
    while i < cs.len()
        invariant
            cs@ == path@,
            i <= cs.len(),
            k == after_last_slash(path@, i as int),
        decreases cs.len() - i,
    {
        if cs[i] == '/' {
            k = i + 1;
        }
        i = i + 1;
    }
    if k < cs.len() {
        let mut out: Vec<char> = Vec::new();
        let mut j = k;
        proof {
            lemma_after_last_slash_bound(path@, cs.len() as int);
        }
        while j < cs.len()
            invariant
                cs@ == path@,
                k <= j <= cs.len(),
                out@ == path@.subrange(k as int, j as int),
            decreases cs.len() - j,
        {
            out.push(cs[j]);
            j = j + 1;
            proof {
                assert(out@ =~= path@.subrange(k as int, j as int));
            }
        }
        string_from_chars(&out)
    } else {
        String::from_str(path)
    }
}

proof fn lemma_after_last_slash_bound(path: Seq<char>, k: int)
    requires
        0 <= k <= path.len(),
    ensures
        0 <= after_last_slash(path, k) <= k,
    decreases k,
{
    if k > 0 && path[k - 1] != '/' {
        lemma_after_last_slash_bound(path, k - 1);
    }
}

/// The name of a project in the project bar (see [`project_name_spec`]).
pub fn project_name<T>(p: &Project<T>) -> (s: String)
    ensures
        s@ == project_name_spec(p.root@, opt_view(p.custom_name)),
{
    match &p.custom_name {
        Some(n) => n.clone(),
        None => last_component_of(p.root.as_str()),
    }
}

impl<T> Workspace<T> {
    /// The entries of the project bar (see [`project_titles_spec`]);
    /// `has_claude` tells whether some pane runs the coding agent.
    pub fn project_titles(&self, has_claude: bool, renaming: &Option<RenameProjectState>) -> (v: Vec<
        (BarEntry, bool),
    >)
        ensures
            bar_views(v@) == project_titles_spec(
                self.projects@,
                self.active_project as int,
                self.view_mode,
                has_claude,
                match renaming {
                    Some(r) => Some((r.project_idx, r.input@)),
                    None => None,
                },
            ),
    {
        let mut v: Vec<(BarEntry, bool)> = Vec::new();
        let n = self.projects.len();
        if n >= 2 {
            v.push((BarEntry::Filter(ViewMode::All), self.view_mode == ViewMode::All));
            if has_claude {
                v.push((BarEntry::Filter(ViewMode::Claude), self.view_mode == ViewMode::Claude));
                v.push((BarEntry::Filter(ViewMode::Terminal), self.view_mode == ViewMode::Terminal));
            }
        }
        let ghost filters = bar_views(v@);
        let ghost rn = match renaming {
            Some(r) => Some((r.project_idx, r.input@)),
            None => None,
        };
        let ghost ps = self.projects@;
        let ghost ap = self.active_project as int;
        let ghost mode = self.view_mode;
        proof {
            assert(filters =~= project_titles_spec(ps, ap, mode, has_claude, rn).take(
                filters.len() as int,
            ));
        }
        let mut i: usize = 0;
        while i < n
            invariant
                n == self.projects@.len(),
                ps == self.projects@,
                ap == self.active_project,
                mode == self.view_mode,
                i <= n,
                bar_views(v@) == filters + Seq::new(
                    i as nat,
                    |j: int| project_entry(ps, ap, mode, rn, j),
                ),
                rn == match renaming {
                    Some(r) => Some((r.project_idx, r.input@)),
                    None => None,
                },
            decreases n - i,
        {
            let title = match renaming {
                Some(r) if r.project_idx == i => {
                    let mut cs = chars_of(r.input.as_str());
                    cs.push('|');
                    string_from_chars(&cs)
                },
                _ => project_name(&self.projects[i]),
            };
            let ghost prev = bar_views(v@);
            let hl = self.view_mode == ViewMode::Project && i == self.active_project;
            v.push((BarEntry::Project(title), hl));
            proof {
                assert(project_entry(ps, ap, mode, rn, i as int) == ((None::<ViewMode>, title@), hl));
                assert(bar_views(v@) =~= prev.push(project_entry(ps, ap, mode, rn, i as int)));
            }
            i = i + 1;
            proof {
                assert(bar_views(v@) =~= filters + Seq::new(
                    i as nat,
                    |j: int| project_entry(ps, ap, mode, rn, j),
                ));
            }
        }
        proof {
            assert(bar_views(v@) =~= project_titles_spec(ps, ap, mode, has_claude, rn));
        }
        v
    }
}

/// The tab bar of the active project as `(tab, is_active, is_renaming,
/// has_bell)`, one entry per tab in order; empty in the overview modes,
/// where the tab bar is hidden. `renaming_tab` tells whether the active tab
/// is being renamed.
pub open spec fn tab_bar_spec<T>(p: Project<T>, mode: ViewMode, renaming_tab: bool) -> Seq<
    (usize, bool, bool, bool),
> {
    if mode != ViewMode::Project {
        Seq::empty()
    } else {
        Seq::new(
            p.tabs@.len(),
            |i: int|
                (
                    i as usize,
                    i == p.active_tab,
                    renaming_tab && i == p.active_tab,
                    p.tabs@[i].has_bell,
                ),
        )
    }
}

impl<T> Workspace<T> {
    /// The entries of the tab bar (see [`tab_bar_spec`]).
    pub fn tab_bar(&self, renaming_tab: bool) -> (v: Vec<(usize, bool, bool, bool)>)
        requires
            self.wf(),
            self.projects.len() > 0,
        ensures
            v@ == tab_bar_spec(
                self.projects@[self.active_project as int],
                self.view_mode,
                renaming_tab,
            ),
    {
        let mut v: Vec<(usize, bool, bool, bool)> = Vec::new();
        if self.view_mode != ViewMode::Project {
            proof {
                assert(v@ =~= tab_bar_spec(
                    self.projects@[self.active_project as int],
                    self.view_mode,
                    renaming_tab,
                ));
            }
            return v;
        }
        let p = &self.projects[self.active_project];
        let n = p.tabs.len();
        let mut i: usize = 0;
        while i < n
            invariant
                n == p.tabs@.len(),
                i <= n,
                v@ == tab_bar_spec(*p, ViewMode::Project, renaming_tab).take(i as int),
                tab_bar_spec(*p, ViewMode::Project, renaming_tab).len() == n,
            decreases n - i,
        {
            let active = i == p.active_tab;
            v.push((i, active, renaming_tab && active, p.tabs[i].has_bell));
            i = i + 1;
            proof {
                assert(v@ =~= tab_bar_spec(*p, ViewMode::Project, renaming_tab).take(i as int));
            }
        }
        proof {
            assert(v@ =~= tab_bar_spec(*p, ViewMode::Project, renaming_tab));
        }
        v
    }
}

/// The keyboard modes of a window: the help overlay, renaming a project,
/// renaming a tab, and the scrollback filter with its query.
pub struct KeyModes {
    pub show_help: bool,
    pub rename_project: Option<RenameProjectState>,
    pub rename_tab: Option<String>,
    pub filter_query: Option<String>,
}

/// What a key press did in the window's keyboard modes.
pub enum KeyRoute {
    /// The key was used up by a mode.
    Consumed,
    /// The project rename was committed with this name (none: back to the
    /// default name).
    CommitProjectName(usize, Option<String>),
    /// The tab rename was committed with this title (none: back to the
    /// default title).
    CommitTabTitle(Option<String>),
    /// The filter query changed; its matches are due again.
    FilterChanged,
    /// The filter was closed.
    FilterClosed,
    /// No mode is active: the key goes to the shortcuts and the terminal.
    Unhandled,
}

pub open spec fn is_named(key: LogicalKey, n: NamedKey) -> bool {
    key == LogicalKey::Named(n)
}

impl KeyModes {
    pub fn new() -> (m: Self)
        ensures
            !m.show_help,
            m.rename_project is None,
            m.rename_tab is None,
            m.filter_query is None,
    {
        KeyModes { show_help: false, rename_project: None, rename_tab: None, filter_query: None }
    }

    /// Opens the filter with an empty query, or closes it.
    pub fn toggle_filter(&mut self)
        ensures
            old(self).filter_query is Some ==> final(self).filter_query is None,
            old(self).filter_query is None ==> opt_view(final(self).filter_query) == Some(
                Seq::<char>::empty(),
            ),
            final(self).show_help == old(self).show_help,
            final(self).rename_project == old(self).rename_project,
            final(self).rename_tab == old(self).rename_tab,
    {
        if self.filter_query.is_some() {
            self.filter_query = None;
        } else {
            self.filter_query = Some(String::new());
        }
    }

    /// Routes a key press through the modes, in order of precedence: the help
    /// overlay (closed by Escape or F1), the project rename, the tab rename
    /// (Enter commits, Escape cancels, other keys edit the name) and the
    /// filter (Escape closes it, other keys edit the query).
    #[verifier::spinoff_prover]
    pub fn route_key(&mut self, key: &LogicalKey) -> (r: KeyRoute)
        ensures
            old(self).show_help ==> {
                &&& r is Consumed
                &&& final(self).show_help == !(is_named(*key, NamedKey::Escape) || is_named(
                    *key,
                    NamedKey::F1,
                ))
                &&& final(self).rename_project == old(self).rename_project
                &&& final(self).rename_tab == old(self).rename_tab
                &&& final(self).filter_query == old(self).filter_query
            },
            !old(self).show_help && old(self).rename_project is Some ==> {
                let st = old(self).rename_project->0;
                &&& final(self).show_help == old(self).show_help
                &&& final(self).rename_tab == old(self).rename_tab
                &&& final(self).filter_query == old(self).filter_query
                &&& if is_named(*key, NamedKey::Enter) {
                    &&& r matches KeyRoute::CommitProjectName(idx, name) && idx == st.project_idx
                        && opt_view(name) == committed_name(st.input@)
                    &&& final(self).rename_project is None
                } else if is_named(*key, NamedKey::Escape) {
                    r is Consumed && final(self).rename_project is None
                } else {
                    &&& r is Consumed
                    &&& final(self).rename_project matches Some(ns) && ns.project_idx
                        == st.project_idx && ns.input@ == edited_text(st.input@, *key)
                }
            },
            !old(self).show_help && old(self).rename_project is None && old(self).rename_tab is Some
                ==> {
                let input = old(self).rename_tab->0;
                &&& final(self).show_help == old(self).show_help
                &&& final(self).rename_project == old(self).rename_project
                &&& final(self).filter_query == old(self).filter_query
                &&& if is_named(*key, NamedKey::Enter) {
                    &&& r matches KeyRoute::CommitTabTitle(title) && opt_view(title)
                        == committed_name(input@)
                    &&& final(self).rename_tab is None
                } else if is_named(*key, NamedKey::Escape) {
                    r is Consumed && final(self).rename_tab is None
                } else {
                    &&& r is Consumed
                    &&& opt_view(final(self).rename_tab) == Some(edited_text(input@, *key))
                }
            },
            !old(self).show_help && old(self).rename_project is None && old(self).rename_tab is None
                && old(self).filter_query is Some ==> {
                let query = old(self).filter_query->0;
                &&& final(self).show_help == old(self).show_help
                &&& final(self).rename_project == old(self).rename_project
                &&& final(self).rename_tab == old(self).rename_tab
                &&& if is_named(*key, NamedKey::Escape) {
                    r is FilterClosed && final(self).filter_query is None
                } else if is_named(*key, NamedKey::Backspace) || key is Character {
                    &&& r is FilterChanged
                    &&& opt_view(final(self).filter_query) == Some(edited_text(query@, *key))
                } else {
                    r is Consumed && final(self).filter_query == old(self).filter_query
                }
            },
            !old(self).show_help && old(self).rename_project is None && old(self).rename_tab is None
                && old(self).filter_query is None ==> {
                &&& r is Unhandled
                &&& final(self).show_help == old(self).show_help
                &&& final(self).rename_project == old(self).rename_project
                &&& final(self).rename_tab == old(self).rename_tab
                &&& final(self).filter_query == old(self).filter_query
            },
    {
        let is_enter = matches!(key, LogicalKey::Named(NamedKey::Enter));
        let is_escape = matches!(key, LogicalKey::Named(NamedKey::Escape));
        if self.show_help {
            if is_escape || matches!(key, LogicalKey::Named(NamedKey::F1)) {
                self.show_help = false;
            }
            return KeyRoute::Consumed;
        }
        if self.rename_project.is_some() {
            let mut st = self.rename_project.take().unwrap();
            if is_enter {
                let name = commit_text(st.input);
                return KeyRoute::CommitProjectName(st.project_idx, name);
            } else if is_escape {
                return KeyRoute::Consumed;
            }
            edit_text(&mut st.input, key);
            self.rename_project = Some(st);
            return KeyRoute::Consumed;
        }
        if self.rename_tab.is_some() {
            let mut input = self.rename_tab.take().unwrap();
            if is_enter {
                let title = commit_text(input);
                return KeyRoute::CommitTabTitle(title);
            } else if is_escape {
                return KeyRoute::Consumed;
            }
            edit_text(&mut input, key);
            self.rename_tab = Some(input);
            return KeyRoute::Consumed;
        }
        if self.filter_query.is_some() {
            if is_escape {
                self.filter_query = None;
                return KeyRoute::FilterClosed;
            }
            let edits = matches!(key, LogicalKey::Named(NamedKey::Backspace)) || matches!(key, LogicalKey::Character(_));
            if edits {
                let mut query = self.filter_query.take().unwrap();
                edit_text(&mut query, key);
                self.filter_query = Some(query);
                return KeyRoute::FilterChanged;
            }
            return KeyRoute::Consumed;
        }
        KeyRoute::Unhandled
    }
}

/// The frame counters of a window: the git-branch poll, the startup help
/// hint, the toast notification with its message and the cool-down between
/// system notifications.
pub struct FrameTimers {
    pub fps: u32,
    pub git_poll_counter: u32,
    pub git_poll_interval: u32,
    pub help_hint_frames: u32,
    pub toast_frames: u32,
    pub toast_text: String,
    pub notify_cooldown: u32,
}

/// What a frame asks of the window.
pub struct TickDecision {
    /// Poll the git branch of the focused pane.
    pub poll_git: bool,
    /// Send a system notification for a new bell.
    pub notify_bell: bool,
}

/// The message of the in-app toast for a bell.
pub open spec fn bell_toast_text() -> Seq<char> {
    "Bell received"@
}

impl FrameTimers {
    /// The counters of a new window: git is polled every two seconds and the
    /// help hint shows for three.
    pub fn new(fps: u32) -> (t: Self)
        requires
            fps * 5 <= u32::MAX,
        ensures
            t.fps == fps,
            t.git_poll_counter == 0,
            t.git_poll_interval == fps as int * 2,
            t.help_hint_frames == fps as int * 3,
            t.toast_frames == 0,
            t.toast_text@ == Seq::<char>::empty(),
            t.notify_cooldown == 0,
    {
        FrameTimers {
            fps,
            git_poll_counter: 0,
            git_poll_interval: fps * 2,
            help_hint_frames: fps * 3,
            toast_frames: 0,
            toast_text: String::new(),
            notify_cooldown: 0,
        }
    }

    /// Shows the toast `msg` for two seconds.
    pub fn show_toast(&mut self, msg: String)
        requires
            old(self).fps * 2 <= u32::MAX,
        ensures
            final(self).toast_frames == old(self).fps as int * 2,
            final(self).toast_text == msg,
            final(self).fps == old(self).fps,
            final(self).git_poll_counter == old(self).git_poll_counter,
            final(self).git_poll_interval == old(self).git_poll_interval,
            final(self).help_hint_frames == old(self).help_hint_frames,
            final(self).notify_cooldown == old(self).notify_cooldown,
    {
        self.toast_text = msg;
        self.toast_frames = self.fps * 2;
    }

    /// Advances one frame. `new_bell` tells whether a tab rang its bell
    /// since the last frame; a notification, and an in-app toast, are given
    /// for it unless one was given less than five seconds ago. The toast then
    /// counts down with this frame.
    pub fn tick(&mut self, new_bell: bool) -> (d: TickDecision)
        requires
            old(self).fps * 5 <= u32::MAX,
        ensures
            ({
                let counter = if old(self).git_poll_counter == u32::MAX {
                    u32::MAX as int
                } else {
                    old(self).git_poll_counter + 1
                };
                let cooldown = if old(self).notify_cooldown > 0 {
                    old(self).notify_cooldown - 1
                } else {
                    0
                };
                let toast = if d.notify_bell {
                    old(self).fps as int * 2
                } else {
                    old(self).toast_frames as int
                };
                &&& d.poll_git == (counter >= old(self).git_poll_interval)
                &&& final(self).git_poll_counter == if d.poll_git {
                    0
                } else {
                    counter
                }
                &&& d.notify_bell == (new_bell && cooldown == 0)
                &&& final(self).notify_cooldown == if d.notify_bell {
                    old(self).fps as int * 5
                } else {
                    cooldown
                }
                &&& final(self).toast_text@ == if d.notify_bell {
                    bell_toast_text()
                } else {
                    old(self).toast_text@
                }
                &&& final(self).help_hint_frames == if old(self).help_hint_frames > 0 {
                    old(self).help_hint_frames - 1
                } else {
                    0
                }
                &&& final(self).toast_frames == if toast > 0 {
                    toast - 1
                } else {
                    0
                }
                &&& final(self).fps == old(self).fps
                &&& final(self).git_poll_interval == old(self).git_poll_interval
            }),
    {
        self.git_poll_counter = if self.git_poll_counter == u32::MAX {
            u32::MAX
        } else {
            self.git_poll_counter + 1
        };
        let poll_git = self.git_poll_counter >= self.git_poll_interval;
        if poll_git {
            self.git_poll_counter = 0;
        }
        if self.notify_cooldown > 0 {
            self.notify_cooldown = self.notify_cooldown - 1;
        }
        let notify_bell = new_bell && self.notify_cooldown == 0;
        if notify_bell {
            self.notify_cooldown = self.fps * 5;
            self.show_toast(String::from_str("Bell received"));
        }
        if self.help_hint_frames > 0 {
            self.help_hint_frames = self.help_hint_frames - 1;
        }
        if self.toast_frames > 0 {
            self.toast_frames = self.toast_frames - 1;
        }
        TickDecision { poll_git, notify_bell }
    }
}

/// The notification for a finished command: its command line, if known, and
/// how long it ran.
pub open spec fn completion_message_spec(cmd: Option<Seq<char>>, secs: u64) -> Seq<char> {
    match cmd {
        Some(c) => seq!['\''] + c + "' finished ("@ + crate::text::decimal(secs as nat) + seq![
            's',
            ')',
        ],
        None => "Command finished ("@ + crate::text::decimal(secs as nat) + seq!['s', ')'],
    }
}

pub fn completion_message(cmd: Option<&str>, secs: u64) -> (m: String)
    ensures
        m@ == completion_message_spec(
            match cmd {
                Some(c) => Some(c@),
                None => None,
            },
            secs,
        ),
{
    let mut digits: Vec<char> = Vec::new();
    crate::text::push_decimal(&mut digits, secs);
    digits.push('s');
    digits.push(')');
    let tail = string_from_chars(&digits);
    let mut m = match cmd {
        Some(c) => {
            let mut m = String::from_str("'");
            m.append(c);
            m.append("' finished (");
            m
        },
        None => String::from_str("Command finished ("),
    };
    m.append(tail.as_str());
    proof {
        reveal_strlit("'");
        assert(m@ =~= completion_message_spec(
            match cmd {
                Some(c) => Some(c@),
                None => None,
            },
            secs,
        ));
    }
    m
}

/// The notification for a command that finished after `secs` seconds and
/// `nanos` nanoseconds (as `Duration::as_secs` and `subsec_nanos` give
/// them): due when notifications are on (`threshold_secs > 0`) and the
/// command ran longer than that many seconds; it names the whole seconds.
pub fn completion_notice(threshold_secs: u64, cmd: Option<&str>, secs: u64, nanos: u32) -> (m:
    Option<String>)
    requires
        nanos < 1_000_000_000,
    ensures
        m is Some <==> (threshold_secs > 0 && secs * 1_000_000_000 + nanos > threshold_secs
            * 1_000_000_000),
        m matches Some(t) ==> t@ == completion_message_spec(
            match cmd {
                Some(c) => Some(c@),
                None => None,
            },
            secs,
        ),
{
    if threshold_secs > 0 && (secs > threshold_secs || (secs == threshold_secs && nanos > 0)) {
        Some(completion_message(cmd, secs))
    } else {
        None
    }
}

} // verus!
