use vstd::prelude::*;

use crate::compile::CompileOptions;
use crate::request::{RequestState, ServiceOptions};
use crate::tab::{
    is_same_method, is_same_service, same_method, same_service, MethodRef, MethodTabState,
    OptionsTabState, ServiceRef, TabState,
};

verus! {

/// Tabs are named by numbers that are handed out in increasing order.
pub type TabId = u64;

/// A tab of the body: its id and what it shows.
#[derive(Debug)]
pub struct Tab {
    pub id: TabId,
    pub state: TabState,
}

/// The tabs of the body, ordered by id, and the selected one.
#[derive(Debug)]
pub struct State {
    tabs: Vec<Tab>,
    selected: Option<TabId>,
    next_id: TabId,
}

/// The ids of a sequence of tabs, in order.
pub open spec fn ids_of(tabs: Seq<Tab>) -> Seq<TabId> {
    tabs.map_values(|t: Tab| t.id)
}

/// Strictly increasing ids: each id occurs once and tabs are in id order.
pub open spec fn increasing(ids: Seq<TabId>) -> bool {
    forall|i: int, j: int| 0 <= i < j < ids.len() ==> ids[i] < ids[j]
}

/// The first id greater than `s`.
pub open spec fn first_greater(ids: Seq<TabId>, s: TabId) -> Option<TabId>
    decreases ids.len(),
{
    if ids.len() == 0 {
        None
    } else if ids[0] > s {
        Some(ids[0])
    } else {
        first_greater(ids.drop_first(), s)
    }
}

/// The first id not less than `s`.
pub open spec fn first_at_least(ids: Seq<TabId>, s: TabId) -> Option<TabId>
    decreases ids.len(),
{
    if ids.len() == 0 {
        None
    } else if ids[0] >= s {
        Some(ids[0])
    } else {
        first_at_least(ids.drop_first(), s)
    }
}

/// The last id less than `s`.
pub open spec fn last_less(ids: Seq<TabId>, s: TabId) -> Option<TabId>
    decreases ids.len(),
{
    if ids.len() == 0 {
        None
    } else if ids.last() < s {
        Some(ids.last())
    } else {
        last_less(ids.drop_last(), s)
    }
}

/// The selection after tabs were removed: the old selection if it is still
/// there, else the next tab after it, else the last tab before it.
pub open spec fn reselect(ids: Seq<TabId>, selected: Option<TabId>) -> Option<TabId> {
    match selected {
        None => None,
        Some(s) => match first_at_least(ids, s) {
            Some(t) => Some(t),
            None => last_less(ids, s),
        },
    }
}

/// The selection after moving to the next tab.
pub open spec fn select_next(ids: Seq<TabId>, selected: Option<TabId>) -> Option<TabId> {
    match selected {
        None => None,
        Some(s) => match first_greater(ids, s) {
            Some(t) => Some(t),
            None => Some(s),
        },
    }
}

/// The selection after moving to the previous tab.
pub open spec fn select_prev(ids: Seq<TabId>, selected: Option<TabId>) -> Option<TabId> {
    match selected {
        None => None,
        Some(s) => match last_less(ids, s) {
            Some(t) => Some(t),
            None => Some(s),
        },
    }
}

/// Whether a tab belongs to a service: a method tab of one of its methods or
/// its options tab.
pub open spec fn belongs_to(tab: TabState, service: ServiceRef) -> bool {
    match tab {
        TabState::Method(m) => same_service(m.method.service, service),
        TabState::Options(o) => same_service(o.service, service),
        _ => false,
    }
}

/// The tabs that stay when `service` is removed.
pub open spec fn outside_service(service: ServiceRef) -> spec_fn(Tab) -> bool {
    |t: Tab| !belongs_to(t.state, service)
}

pub open spec fn is_compile(tab: Tab) -> bool {
    tab.state is Compile
}

pub open spec fn is_reflection(tab: Tab) -> bool {
    tab.state is Reflection
}

pub open spec fn is_method_tab_of(tab: Tab, method: MethodRef) -> bool {
    tab.state matches TabState::Method(m) && same_method(m.method, method)
}

pub open spec fn is_options_tab_of(tab: Tab, service: ServiceRef) -> bool {
    tab.state matches TabState::Options(o) && same_service(o.service, service)
}

/// What a search among the tabs looks for.
pub enum TabQuery<'a> {
    Compile,
    Reflection,
    Method(&'a MethodRef),
    Options(&'a ServiceRef),
}

pub open spec fn tab_matches(tab: TabState, q: TabQuery) -> bool {
    match q {
        TabQuery::Compile => tab is Compile,
        TabQuery::Reflection => tab is Reflection,
        TabQuery::Method(method) => tab matches TabState::Method(m) && same_method(m.method, *method),
        TabQuery::Options(service) => tab matches TabState::Options(o) && same_service(o.service, *service),
    }
}

/// The index of the first tab that the query matches, if any.
pub open spec fn first_match(tabs: Seq<Tab>, q: TabQuery) -> Option<int> {
    if exists|k: int| 0 <= k < tabs.len() && #[trigger] tab_matches(tabs[k].state, q) {
        Some(choose|k: int|
            0 <= k < tabs.len() && tab_matches(tabs[k].state, q) && forall|j: int|
                0 <= j < k ==> !tab_matches(#[trigger] tabs[j].state, q))
    } else {
        None
    }
}

fn query_matches(tab: &TabState, q: &TabQuery) -> (res: bool)
    ensures
        res == tab_matches(*tab, *q),
{
    match q {
        TabQuery::Compile => matches!(tab, TabState::Compile(_)),
        TabQuery::Reflection => matches!(tab, TabState::Reflection(_)),
        TabQuery::Method(method) => match tab {
            TabState::Method(m) => is_same_method(&m.method, method),
            _ => false,
        },
        TabQuery::Options(service) => match tab {
            TabState::Options(o) => is_same_service(&o.service, service),
            _ => false,
        },
    }
}

fn belongs_to_service(tab: &TabState, service: &ServiceRef) -> (res: bool)
    ensures
        res == belongs_to(*tab, *service),
{
    match tab {
        TabState::Method(m) => is_same_service(&m.method.service, service),
        TabState::Options(o) => is_same_service(&o.service, service),
        TabState::Compile(_) => false,
        TabState::Reflection(_) => false,
    }
}

/// What `State::select_next_tab` makes of `before`.
pub open spec fn post_select_next_tab(before: State, after: State) -> bool {
    &&& after.spec_tabs() == before.spec_tabs()
    &&& after.spec_next_id() == before.spec_next_id()
    &&& after.spec_selected() == select_next(before.spec_ids(), before.spec_selected())
}

/// What `State::select_prev_tab` makes of `before`.
pub open spec fn post_select_prev_tab(before: State, after: State) -> bool {
    &&& after.spec_tabs() == before.spec_tabs()
    &&& after.spec_next_id() == before.spec_next_id()
    &&& after.spec_selected() == select_prev(before.spec_ids(), before.spec_selected())
}

/// What `State::close_selected_tab` makes of `before`.
pub open spec fn post_close_selected_tab(before: State, after: State) -> bool {
    &&& after.spec_next_id() == before.spec_next_id()
    &&& match before.spec_selected() {
            Some(s) => {
                &&& after.spec_tabs() == before.spec_tabs().remove(before.spec_ids().index_of(s))
                &&& after.spec_selected() == reselect(after.spec_ids(), Some(s))
            },
            None => after.spec_tabs() == before.spec_tabs() && after.spec_selected() is None,
        }
}

/// What `State::select_or_create_compiler_tab` with options whose include
/// paths are `includes` makes of `before`.
pub open spec fn post_select_or_create_compiler_tab(before: State, after: State, includes: Seq<String>) -> bool {
    &&& match first_match(before.spec_tabs(), TabQuery::Compile) {
            Some(k) => after.spec_tabs() == before.spec_tabs() && after.spec_selected()
                == Some(before.spec_tabs()[k].id) && after.spec_next_id() == before.spec_next_id(),
            None => {
                &&& after.spec_tabs().len() == before.spec_tabs().len() + 1
                &&& after.spec_tabs().drop_last() == before.spec_tabs()
                &&& after.spec_tabs().last().id == before.spec_next_id()
                &&& after.spec_tabs().last().state matches TabState::Compile(o) && o.includes@ == includes
                &&& after.spec_selected() == Some(before.spec_next_id())
                &&& after.spec_next_id() == before.spec_next_id() + 1
            },
        }
}

/// What `State::select_or_create_reflection_tab` makes of `before`.
pub open spec fn post_select_or_create_reflection_tab(before: State, after: State) -> bool {
    &&& match first_match(before.spec_tabs(), TabQuery::Reflection) {
            Some(k) => after.spec_tabs() == before.spec_tabs() && after.spec_selected()
                == Some(before.spec_tabs()[k].id),
            None => {
                &&& after.spec_tabs().len() == before.spec_tabs().len() + 1
                &&& after.spec_tabs().drop_last() == before.spec_tabs()
                &&& after.spec_tabs().last().id == before.spec_next_id()
                &&& after.spec_tabs().last().state is Reflection
                &&& after.spec_selected() == Some(before.spec_next_id())
            },
        }
}

/// A method tab as it is first opened: for `method`, with the request text
/// given, no metadata, no history, the service's options, and the address
/// box holding the options' default address, if any, not connected.
pub open spec fn fresh_method_tab(m: MethodTabState, method: MethodRef, options: ServiceOptions, request: String, request_valid: bool) -> bool {
    &&& m.method == method
    &&& m.address.wf()
    &&& m.address.spec_request_state() == RequestState::NotStarted
    &&& match options.default_address {
        Some(a) => m.address.spec_text() == a@,
        None => m.address.spec_text() == Seq::<char>::empty(),
    }
    &&& m.request == request
    &&& m.request_valid == request_valid
    &&& m.request_metadata.entries@.len() == 0
    &&& m.stream.spec_items().len() == 0
    &&& m.service_options == options
}

/// An options tab as it is first opened: for `service`, its address box
/// holding the options' default address, if any, not connected, and the
/// options' certificate check.
pub open spec fn fresh_options_tab(o: OptionsTabState, service: ServiceRef, options: ServiceOptions) -> bool {
    &&& o.service == service
    &&& o.default_address.wf()
    &&& o.default_address.spec_request_state() == RequestState::NotStarted
    &&& match options.default_address {
        Some(a) => o.default_address.spec_text() == a@,
        None => o.default_address.spec_text() == Seq::<char>::empty(),
    }
    &&& o.verify_certs == options.verify_certs
}

/// What `State::create_method_tab` makes of `before`.
pub open spec fn post_create_method_tab(
    before: State,
    after: State,
    method: &MethodRef,
    options: ServiceOptions,
    request: String,
    request_valid: bool,
) -> bool {
    &&& after.spec_tabs().len() == before.spec_tabs().len() + 1
    &&& after.spec_tabs().drop_last() == before.spec_tabs()
    &&& after.spec_tabs().last().id == before.spec_next_id()
    &&& after.spec_tabs().last().state matches TabState::Method(m) && fresh_method_tab(m, *method, options, request, request_valid)
    &&& after.spec_selected() == Some(before.spec_next_id())
    &&& after.spec_next_id() == before.spec_next_id() + 1
}

/// What `State::select_or_create_method_tab` makes of `before`.
pub open spec fn post_select_or_create_method_tab(
    before: State,
    after: State,
    method: &MethodRef,
    options: ServiceOptions,
    request: String,
    request_valid: bool,
) -> bool {
    &&& (before.spec_selected_tab() matches Some(t) && tab_matches(t, TabQuery::Method(method)))
            ==> after.spec_tabs() == before.spec_tabs() && after.spec_selected()
            == before.spec_selected() && after.spec_next_id() == before.spec_next_id()
    &&& !(before.spec_selected_tab() matches Some(t) && tab_matches(t, TabQuery::Method(method)))
            ==> match first_match(before.spec_tabs(), TabQuery::Method(method)) {
            Some(k) => after.spec_tabs() == before.spec_tabs() && after.spec_selected()
                == Some(before.spec_tabs()[k].id) && after.spec_next_id() == before.spec_next_id(),
            None => post_create_method_tab(before, after, method, options, request, request_valid),
        }
}

/// What `State::select_or_create_options_tab` makes of `before`.
pub open spec fn post_select_or_create_options_tab(before: State, after: State, service: &ServiceRef, options: ServiceOptions) -> bool {
    &&& (before.spec_selected_tab() matches Some(t) && tab_matches(t, TabQuery::Options(service)))
            ==> after.spec_tabs() == before.spec_tabs() && after.spec_selected()
            == before.spec_selected() && after.spec_next_id() == before.spec_next_id()
    &&& !(before.spec_selected_tab() matches Some(t) && tab_matches(t, TabQuery::Options(service)))
            ==> match first_match(before.spec_tabs(), TabQuery::Options(service)) {
            Some(k) => after.spec_tabs() == before.spec_tabs() && after.spec_selected()
                == Some(before.spec_tabs()[k].id) && after.spec_next_id() == before.spec_next_id(),
            None => {
                &&& after.spec_tabs().drop_last() == before.spec_tabs()
                &&& after.spec_tabs().len() == before.spec_tabs().len() + 1
                &&& after.spec_tabs().last().id == before.spec_next_id()
                &&& after.spec_tabs().last().state matches TabState::Options(o) && fresh_options_tab(o, *service, options)
                &&& after.spec_selected() == Some(before.spec_next_id())
                &&& after.spec_next_id() == before.spec_next_id() + 1
            },
        }
}

/// What `State::clear_request_history` makes of `before`.
pub open spec fn post_clear_request_history(before: State, after: State) -> bool {
    &&& after.spec_selected() == before.spec_selected()
    &&& after.spec_ids() == before.spec_ids()
    &&& forall|i: int| 0 <= i < before.spec_tabs().len() ==> {
            let t = before.spec_tabs()[i].state;
            let u = #[trigger] after.spec_tabs()[i].state;
            if before.spec_selected() == Some(before.spec_tabs()[i].id) && t is Method {
                u matches TabState::Method(m) && m.stream.spec_items().len() == 0 && m.method == t->Method_0.method
                    && m.address == t->Method_0.address
            } else {
                u == t
            }
        }
}

/// What `State::remove_service` makes of `before`.
pub open spec fn post_remove_service(before: State, after: State, service: &ServiceRef) -> bool {
    &&& after.spec_next_id() == before.spec_next_id()
    &&& after.spec_tabs() == before.spec_tabs().filter(outside_service(*service))
    &&& after.spec_selected() == reselect(after.spec_ids(), before.spec_selected())
}

/// What `State::set_service_options` makes of `before`.
pub open spec fn post_set_service_options(before: State, after: State, service: &ServiceRef, options: &ServiceOptions) -> bool {
    &&& after.spec_ids() == before.spec_ids()
    &&& after.spec_selected() == before.spec_selected()
    &&& forall|i: int| 0 <= i < before.spec_tabs().len() ==> {
            let t = before.spec_tabs()[i].state;
            let u = #[trigger] after.spec_tabs()[i].state;
            match t {
                TabState::Method(m) => if same_service(m.method.service, *service) {
                    u matches TabState::Method(n) && n.service_options == *options && n.method == m.method
                        && n.address == m.address && n.request_valid == m.request_valid
                } else {
                    u == t
                },
                TabState::Options(o) => if same_service(o.service, *service) {
                    u matches TabState::Options(p) && p.service == o.service && p.verify_certs
                        == options.verify_certs && match options.default_address {
                        Some(a) => p.default_address.wf() && p.default_address.spec_text() == a@,
                        None => p.default_address == o.default_address,
                    }
                } else {
                    u == t
                },
                _ => u == t,
            }
        }
}

impl State {
    pub closed spec fn spec_tabs(&self) -> Seq<Tab> {
        self.tabs@
    }

    pub closed spec fn spec_selected(&self) -> Option<TabId> {
        self.selected
    }

    pub closed spec fn spec_next_id(&self) -> TabId {
        self.next_id
    }

    pub open spec fn spec_ids(&self) -> Seq<TabId> {
        ids_of(self.spec_tabs())
    }

    /// The tab with id `id`, if any.
    pub open spec fn spec_tab(&self, id: TabId) -> Option<TabState> {
        if exists|i: int| 0 <= i < self.spec_tabs().len() && self.spec_tabs()[i].id == id {
            let i = choose|i: int| 0 <= i < self.spec_tabs().len() && self.spec_tabs()[i].id == id;
            Some(self.spec_tabs()[i].state)
        } else {
            None
        }
    }

    /// The selected tab's contents.
    pub open spec fn spec_selected_tab(&self) -> Option<TabState> {
        match self.spec_selected() {
            Some(s) => self.spec_tab(s),
            None => None,
        }
    }

    /// Tabs are in increasing id order, the selection is one of them, and
    /// every id is below the next id to be handed out.
    pub open spec fn wf(&self) -> bool {
        &&& increasing(self.spec_ids())
        &&& (self.spec_selected() matches Some(s) ==> self.spec_ids().contains(s))
        &&& forall|i: int| 0 <= i < self.spec_ids().len() ==> self.spec_ids()[i] < self.spec_next_id()
    }

    /// Whether one more tab can be opened without running out of ids.
    pub open spec fn can_open_tab(&self) -> bool {
        self.spec_next_id() < u64::MAX
    }

    /// A body holding `tabs`, with `selected` selected.
    pub fn new(tabs: Vec<Tab>, selected: Option<TabId>) -> (res: State)
        requires
            increasing(ids_of(tabs@)),
            selected matches Some(s) ==> ids_of(tabs@).contains(s),
            tabs@.len() > 0 ==> tabs@.last().id < u64::MAX,
        ensures
            res.wf(),
            res.spec_tabs() == tabs@,
            res.spec_selected() == selected,
    {
        let next_id = if tabs.len() == 0 {
            0
        } else {
            tabs[tabs.len() - 1].id + 1
        };
        let res = State { tabs, selected, next_id };
        assert forall|i: int| 0 <= i < res.spec_ids().len() implies res.spec_ids()[i]
            < res.spec_next_id() by {
            if i < res.spec_ids().len() - 1 {
                assert(res.spec_ids()[i] < res.spec_ids()[res.spec_ids().len() - 1]);
            }
        }
        res
    }

    pub fn first_tab(&self) -> (res: Option<TabId>)
        ensures
            res == (if self.spec_ids().len() == 0 {
                None
            } else {
                Some(self.spec_ids()[0])
            }),
    {
        if self.tabs.len() == 0 {
            None
        } else {
            Some(self.tabs[0].id)
        }
    }

    pub fn last_tab(&self) -> (res: Option<TabId>)
        ensures
            res == (if self.spec_ids().len() == 0 {
                None
            } else {
                Some(self.spec_ids().last())
            }),
    {
        if self.tabs.len() == 0 {
            None
        } else {
            Some(self.tabs[self.tabs.len() - 1].id)
        }
    }

    pub fn selected_tab(&self) -> (res: Option<TabId>)
        ensures
            res == self.spec_selected(),
    {
        self.selected
    }

    /// The first tab id greater than `s`.
    fn find_first_greater(&self, s: TabId) -> (res: Option<TabId>)
        ensures
            res == first_greater(self.spec_ids(), s),
    {
        let mut i: usize = 0;
        assert(self.spec_ids().skip(0) =~= self.spec_ids());
        while i < self.tabs.len()
            invariant
                i <= self.tabs@.len(),
                first_greater(self.spec_ids(), s) == first_greater(self.spec_ids().skip(i as int), s),
            decreases self.tabs@.len() - i,
        {
            assert(self.spec_ids().skip(i as int).drop_first() =~= self.spec_ids().skip(i + 1));
            if self.tabs[i].id > s {
                return Some(self.tabs[i].id);
            }
            i += 1;
        }
        None
    }

    /// The first tab id not less than `s`.
    fn find_first_at_least(&self, s: TabId) -> (res: Option<TabId>)
        ensures
            res == first_at_least(self.spec_ids(), s),
    {
        let mut i: usize = 0;
        assert(self.spec_ids().skip(0) =~= self.spec_ids());
        while i < self.tabs.len()
            invariant
                i <= self.tabs@.len(),
                first_at_least(self.spec_ids(), s) == first_at_least(self.spec_ids().skip(i as int), s),
            decreases self.tabs@.len() - i,
        {
            assert(self.spec_ids().skip(i as int).drop_first() =~= self.spec_ids().skip(i + 1));
            if self.tabs[i].id >= s {
                return Some(self.tabs[i].id);
            }
            i += 1;
        }
        None
    }

    /// The last tab id less than `s`.
    fn find_last_less(&self, s: TabId) -> (res: Option<TabId>)
        ensures
            res == last_less(self.spec_ids(), s),
    {
        let mut i: usize = self.tabs.len();
        assert(self.spec_ids().take(i as int) =~= self.spec_ids());
        while i > 0
            invariant
                i <= self.tabs@.len(),
                last_less(self.spec_ids(), s) == last_less(self.spec_ids().take(i as int), s),
            decreases i,
        {
            assert(self.spec_ids().take(i as int).drop_last() =~= self.spec_ids().take(i - 1));
            if self.tabs[i - 1].id < s {
                return Some(self.tabs[i - 1].id);
            }
            i -= 1;
        }
        None
    }

    /// Moves the selection to the next tab, if there is one after it.
    pub fn select_next_tab(&mut self)
        requires
            old(self).wf(),
        ensures
            final(self).wf(),
            post_select_next_tab(*old(self), *final(self)),
    {
        if let Some(selected) = self.selected {
            if let Some(next) = self.find_first_greater(selected) {
                proof { lemma_first_greater_in(self.spec_ids(), selected); }
                self.selected = Some(next);
            }
        }
    }

    /// Moves the selection to the previous tab, if there is one before it.
    pub fn select_prev_tab(&mut self)
        requires
            old(self).wf(),
        ensures
            final(self).wf(),
            post_select_prev_tab(*old(self), *final(self)),
    {
        if let Some(selected) = self.selected {
            if let Some(prev) = self.find_last_less(selected) {
                proof { lemma_last_less_in(self.spec_ids(), selected); }
                self.selected = Some(prev);
            }
        }
    }

    /// Selects again after tabs were removed.
    fn update_selected_after_remove(&mut self)
        requires
            increasing(old(self).spec_ids()),
            forall|i: int| 0 <= i < old(self).spec_ids().len() ==> old(self).spec_ids()[i] < old(self).spec_next_id(),
        ensures
            final(self).wf(),
            final(self).spec_tabs() == old(self).spec_tabs(),
            final(self).spec_next_id() == old(self).spec_next_id(),
            final(self).spec_selected() == reselect(old(self).spec_ids(), old(self).spec_selected()),
    {
        if let Some(selected) = self.selected {
            let at_least = self.find_first_at_least(selected);
            proof {
                lemma_first_at_least_in(self.spec_ids(), selected);
                lemma_last_less_in(self.spec_ids(), selected);
            }
            self.selected = match at_least {
                Some(t) => Some(t),
                None => self.find_last_less(selected),
            };
        }
    }

    /// The index of the tab with id `id`, if there is one.
    fn position(&self, id: TabId) -> (res: Option<usize>)
        ensures
            match res {
                Some(k) => k < self.spec_tabs().len() && self.spec_tabs()[k as int].id == id,
                None => !self.spec_ids().contains(id),
            },
    {
        let mut i: usize = 0;
        while i < self.tabs.len()
            invariant
                i <= self.tabs@.len(),
                forall|j: int| 0 <= j < i ==> self.tabs@[j].id != id,
            decreases self.tabs@.len() - i,
        {
            if self.tabs[i].id == id {
                return Some(i);
            }
            i += 1;
        }
        None
    }

    /// Closes the tab with id `id`, if there is one, and selects again: the
    /// tab after the closed one, or the one before it if it was the last.
    pub fn remove(&mut self, id: TabId)
        requires
            old(self).wf(),
        ensures
            final(self).wf(),
            final(self).spec_next_id() == old(self).spec_next_id(),
            old(self).spec_ids().contains(id) ==> final(self).spec_tabs() == old(self).spec_tabs().remove(
                old(self).spec_ids().index_of(id),
            ),
            !old(self).spec_ids().contains(id) ==> final(self).spec_tabs() == old(self).spec_tabs(),
            final(self).spec_selected() == reselect(final(self).spec_ids(), old(self).spec_selected()),
    {
        let ghost old_ids = self.spec_ids();
        if let Some(k) = self.position(id) {
            proof {
                lemma_index_of_unique(old_ids, k as int);
            }
            self.tabs.remove(k);
            proof {
                assert(self.spec_ids() =~= old_ids.remove(k as int));
                lemma_remove_increasing(old_ids, k as int);
            }
        }
        self.update_selected_after_remove();
    }

    /// Closes the selected tab, if any.
    pub fn close_selected_tab(&mut self)
        requires
            old(self).wf(),
        ensures
            final(self).wf(),
            post_close_selected_tab(*old(self), *final(self)),
    {
        if let Some(selected) = self.selected {
            self.remove(selected);
        }
    }

    /// The index of the first tab the query matches.
    fn find_first(&self, q: &TabQuery) -> (res: Option<usize>)
        ensures
            match res {
                Some(k) => first_match(self.spec_tabs(), *q) == Some(k as int) && k < self.spec_tabs().len(),
                None => first_match(self.spec_tabs(), *q) is None,
            },
    {
        let mut i: usize = 0;
        while i < self.tabs.len()
            invariant
                i <= self.tabs@.len(),
                forall|j: int| 0 <= j < i ==> !tab_matches(#[trigger] self.tabs@[j].state, *q),
            decreases self.tabs@.len() - i,
        {
            if query_matches(&self.tabs[i].state, q) {
                proof {
                    let tabs = self.tabs@;
                    assert(tab_matches(tabs[i as int].state, *q));
                    let k = choose|k: int|
                        0 <= k < tabs.len() && tab_matches(tabs[k].state, *q) && forall|j: int|
                            0 <= j < k ==> !tab_matches(#[trigger] tabs[j].state, *q);
                    if k < i {
                        assert(!tab_matches(tabs[k].state, *q));
                    } else if k > i {
                        assert(!tab_matches(tabs[i as int].state, *q));
                    }
                }
                return Some(i);
            }
            i += 1;
        }
        None
    }

    /// Opens a tab showing `state` after all others and selects it.
    fn push_tab(&mut self, state: TabState) -> (id: TabId)
        requires
            old(self).wf(),
            old(self).can_open_tab(),
        ensures
            final(self).wf(),
            id == old(self).spec_next_id(),
            final(self).spec_tabs() == old(self).spec_tabs().push(Tab { id, state }),
            final(self).spec_selected() == Some(id),
            final(self).spec_next_id() == id + 1,
    {
        let id = self.next_id;
        let ghost old_ids = self.spec_ids();
        self.tabs.push(Tab { id, state });
        self.next_id = id + 1;
        self.selected = Some(id);
        proof {
            assert(self.spec_ids() =~= old_ids.push(id));
            assert(self.spec_ids()[old_ids.len() as int] == id);
        }
        id
    }

    /// Selects the first tab the query matches, or opens a tab showing `state`.
    fn select_or_push(&mut self, q: &TabQuery, state: TabState)
        requires
            old(self).wf(),
            old(self).can_open_tab(),
        ensures
            final(self).wf(),
            match first_match(old(self).spec_tabs(), *q) {
                Some(k) => {
                    &&& final(self).spec_tabs() == old(self).spec_tabs()
                    &&& final(self).spec_next_id() == old(self).spec_next_id()
                    &&& final(self).spec_selected() == Some(old(self).spec_tabs()[k].id)
                },
                None => {
                    &&& final(self).spec_tabs() == old(self).spec_tabs().push(
                        Tab { id: old(self).spec_next_id(), state },
                    )
                    &&& final(self).spec_selected() == Some(old(self).spec_next_id())
                    &&& final(self).spec_next_id() == old(self).spec_next_id() + 1
                },
            },
    {
        match self.find_first(q) {
            Some(k) => {
                let id = self.tabs[k].id;
                proof {
                    assert(self.spec_ids()[k as int] == id);
                }
                self.selected = Some(id);
            },
            None => {
                self.push_tab(state);
            },
        }
    }

    /// Selects the compiler options tab, opening one with `options` if there
    /// is none.
    pub fn select_or_create_compiler_tab(&mut self, options: CompileOptions)
        requires
            old(self).wf(),
            old(self).can_open_tab(),
        ensures
            final(self).wf(),
            post_select_or_create_compiler_tab(*old(self), *final(self), options.includes@),
    {
        let ghost before = *self;
        self.select_or_push(&TabQuery::Compile, TabState::new_compile(options));
        proof {
            if first_match(before.spec_tabs(), TabQuery::Compile) is None {
                assert(self.spec_tabs().drop_last() =~= before.spec_tabs());
            }
        }
    }

    /// Selects the server reflection tab, opening an empty one if there is none.
    pub fn select_or_create_reflection_tab(&mut self)
        requires
            old(self).wf(),
            old(self).can_open_tab(),
        ensures
            final(self).wf(),
            post_select_or_create_reflection_tab(*old(self), *final(self)),
    {
        let ghost old_tabs = self.spec_tabs();
        self.select_or_push(&TabQuery::Reflection, TabState::empty_reflection());
        proof {
            if first_match(old_tabs, TabQuery::Reflection) is None {
                assert(self.spec_tabs().drop_last() =~= old_tabs);
            }
        }
    }

    /// Opens a new tab for `method` and selects it.
    pub fn create_method_tab(
        &mut self,
        method: &MethodRef,
        options: ServiceOptions,
        request: String,
        request_valid: bool,
    )
        requires
            old(self).wf(),
            old(self).can_open_tab(),
        ensures
            final(self).wf(),
            post_create_method_tab(*old(self), *final(self), method, options, request, request_valid),
    {
        let ghost old_tabs = self.spec_tabs();
        let tab = MethodTabState::empty(method.duplicate(), options, request, request_valid);
        self.push_tab(TabState::Method(tab));
        proof {
            assert(self.spec_tabs().drop_last() =~= old_tabs);
        }
    }

    /// Opens a new options tab for `service` and selects it.
    pub fn create_options_tab(&mut self, service: &ServiceRef, options: ServiceOptions)
        requires
            old(self).wf(),
            old(self).can_open_tab(),
        ensures
            final(self).wf(),
            final(self).spec_tabs().len() == old(self).spec_tabs().len() + 1,
            final(self).spec_tabs().drop_last() == old(self).spec_tabs(),
            final(self).spec_tabs().last().id == old(self).spec_next_id(),
            final(self).spec_tabs().last().state matches TabState::Options(o) && fresh_options_tab(o, *service, options),
            final(self).spec_selected() == Some(old(self).spec_next_id()),
            final(self).spec_next_id() == old(self).spec_next_id() + 1,
    {
        let ghost old_tabs = self.spec_tabs();
        let tab = TabState::new_options(service.duplicate(), options);
        self.push_tab(tab);
        proof {
            assert(self.spec_tabs().drop_last() =~= old_tabs);
        }
    }

    /// Takes the selection shown on the label of tab `id`: a label marked
    /// selected selects its tab, and a selected tab whose label is no longer
    /// marked leaves nothing selected.
    pub fn set_label_selected(&mut self, id: TabId, selected: bool)
        requires
            old(self).wf(),
            old(self).spec_ids().contains(id),
        ensures
            final(self).wf(),
            final(self).spec_tabs() == old(self).spec_tabs(),
            final(self).spec_next_id() == old(self).spec_next_id(),
            final(self).spec_selected() == if (old(self).spec_selected() == Some(id)) == selected {
                old(self).spec_selected()
            } else if selected {
                Some(id)
            } else {
                None::<TabId>
            },
    {
        let was_selected = match self.selected {
            Some(s) => s == id,
            None => false,
        };
        if was_selected != selected {
            self.selected = if selected {
                Some(id)
            } else {
                None
            };
        }
    }

    /// The method of the selected tab, if it is a method tab.
    pub fn selected_method(&self) -> (res: Option<&MethodRef>)
        requires
            self.wf(),
        ensures
            match self.spec_selected_tab() {
                Some(TabState::Method(m)) => res matches Some(r) && *r == m.method,
                _ => res is None,
            },
    {
        match self.selected_tab_state() {
            Some(TabState::Method(m)) => Some(&m.method),
            _ => None,
        }
    }

    /// The selected tab, if it is a method tab.
    pub fn selected_method_tab(&self) -> (res: Option<&MethodTabState>)
        requires
            self.wf(),
        ensures
            match self.spec_selected_tab() {
                Some(TabState::Method(m)) => res matches Some(r) && *r == m,
                _ => res is None,
            },
    {
        match self.selected_tab_state() {
            Some(TabState::Method(m)) => Some(m),
            _ => None,
        }
    }

    /// The selected tab, if it is an options tab.
    pub fn selected_options_tab(&self) -> (res: Option<&OptionsTabState>)
        requires
            self.wf(),
        ensures
            match self.spec_selected_tab() {
                Some(TabState::Options(o)) => res matches Some(r) && *r == o,
                _ => res is None,
            },
    {
        match self.selected_tab_state() {
            Some(TabState::Options(o)) => Some(o),
            _ => None,
        }
    }

    /// `f` applied to the id and contents of the selected tab, if it is a
    /// method tab.
    pub fn with_selected_method<V, F: FnOnce(TabId, &MethodTabState) -> V>(&self, f: F) -> (res: Option<V>)
        requires
            self.wf(),
            forall|id: TabId, t: MethodTabState| f.requires((id, &t)),
        ensures
            match self.spec_selected_tab() {
                Some(TabState::Method(m)) => res matches Some(v) && f.ensures((self.spec_selected().unwrap(), &m), v),
                _ => res is None,
            },
    {
        match self.selected {
            Some(id) => match self.selected_method_tab() {
                Some(m) => Some(f(id, m)),
                None => None,
            },
            None => None,
        }
    }

    /// `f` applied to the id and contents of the selected tab, if it is an
    /// options tab.
    pub fn with_selected_options<V, F: FnOnce(TabId, &OptionsTabState) -> V>(&self, f: F) -> (res: Option<V>)
        requires
            self.wf(),
            forall|id: TabId, t: OptionsTabState| f.requires((id, &t)),
        ensures
            match self.spec_selected_tab() {
                Some(TabState::Options(o)) => res matches Some(v) && f.ensures((self.spec_selected().unwrap(), &o), v),
                _ => res is None,
            },
    {
        match self.selected {
            Some(id) => match self.selected_options_tab() {
                Some(o) => Some(f(id, o)),
                None => None,
            },
            None => None,
        }
    }

    /// The contents of the selected tab.
    pub fn selected_tab_state(&self) -> (res: Option<&TabState>)
        requires
            self.wf(),
        ensures
            match self.spec_selected_tab() {
                Some(t) => res matches Some(r) && *r == t,
                None => res is None,
            },
    {
        match self.selected {
            None => None,
            Some(s) => match self.position(s) {
                Some(k) => {
                    proof {
                        let tabs = self.spec_tabs();
                        let c = choose|i: int| 0 <= i < tabs.len() && tabs[i].id == s;
                        assert(self.spec_ids()[c] == s && self.spec_ids()[k as int] == s);
                        if c < k {
                            assert(self.spec_ids()[c] < self.spec_ids()[k as int]);
                        } else if c > k {
                            assert(self.spec_ids()[k as int] < self.spec_ids()[c]);
                        }
                    }
                    Some(&self.tabs[k].state)
                },
                None => {
                    proof {
                        assert(self.spec_ids().contains(s));
                    }
                    None
                },
            },
        }
    }

    /// Selects the tab for `method`: the selected tab if it shows that method,
    /// else the first tab that does, else a new one.
    pub fn select_or_create_method_tab(
        &mut self,
        method: &MethodRef,
        options: ServiceOptions,
        request: String,
        request_valid: bool,
    )
        requires
            old(self).wf(),
            old(self).can_open_tab(),
        ensures
            final(self).wf(),
            post_select_or_create_method_tab(*old(self), *final(self), method, options, request, request_valid),
    {
        let q = TabQuery::Method(method);
        if let Some(tab) = self.selected_tab_state() {
            if query_matches(tab, &q) {
                return;
            }
        }
        match self.find_first(&q) {
            Some(k) => {
                let id = self.tabs[k].id;
                proof {
                    assert(self.spec_ids()[k as int] == id);
                }
                self.selected = Some(id);
            },
            None => {
                self.create_method_tab(method, options, request, request_valid);
            },
        }
    }

    /// Selects the options tab of `service`: the selected tab if it is that,
    /// else the first such tab, else a new one.
    pub fn select_or_create_options_tab(&mut self, service: &ServiceRef, options: ServiceOptions)
        requires
            old(self).wf(),
            old(self).can_open_tab(),
        ensures
            final(self).wf(),
            post_select_or_create_options_tab(*old(self), *final(self), service, options),
    {
        let q = TabQuery::Options(service);
        if let Some(tab) = self.selected_tab_state() {
            if query_matches(tab, &q) {
                return;
            }
        }
        match self.find_first(&q) {
            Some(k) => {
                let id = self.tabs[k].id;
                proof {
                    assert(self.spec_ids()[k as int] == id);
                }
                self.selected = Some(id);
            },
            None => {
                self.create_options_tab(service, options);
            },
        }
    }

    pub fn can_connect(&self) -> (b: bool)
        requires
            self.wf(),
        ensures
            b == (self.spec_selected_tab() matches Some(t) && t.spec_can_connect()),
    {
        match self.selected_tab_state() {
            Some(tab) => tab.can_connect(),
            None => false,
        }
    }

    pub fn can_send(&self) -> (b: bool)
        requires
            self.wf(),
        ensures
            b == (self.spec_selected_tab() matches Some(t) && t.spec_can_send()),
    {
        match self.selected_tab_state() {
            Some(tab) => tab.can_send(),
            None => false,
        }
    }

    pub fn can_finish(&self) -> (b: bool)
        requires
            self.wf(),
        ensures
            b == (self.spec_selected_tab() matches Some(t) && t.spec_can_finish()),
    {
        match self.selected_tab_state() {
            Some(tab) => tab.can_finish(),
            None => false,
        }
    }

    pub fn can_disconnect(&self) -> (b: bool)
        requires
            self.wf(),
        ensures
            b == (self.spec_selected_tab() matches Some(t) && t.spec_can_disconnect()),
    {
        match self.selected_tab_state() {
            Some(tab) => tab.can_disconnect(),
            None => false,
        }
    }

    /// The tabs in id order.
    pub fn tabs(&self) -> (res: &[Tab])
        ensures
            res@ == self.spec_tabs(),
    {
        self.tabs.as_slice()
    }

    /// Empties the request history of the selected tab if it is a method tab.
    pub fn clear_request_history(&mut self)
        requires
            old(self).wf(),
        ensures
            final(self).wf(),
            post_clear_request_history(*old(self), *final(self)),
    {
        let ghost old_tabs = self.spec_tabs();
        if let Some(s) = self.selected {
            if let Some(k) = self.position(s) {
                let tab = &mut self.tabs[k];
                match &mut tab.state {
                    TabState::Method(m) => m.clear_request_history(),
                    _ => {},
                }
                proof {
                    assert(self.spec_ids() =~= ids_of(old_tabs));
                    assert forall|i: int| 0 <= i < old_tabs.len() && i != k implies old_tabs[i].id != s by {
                        if i < k {
                            assert(ids_of(old_tabs)[i] < ids_of(old_tabs)[k as int]);
                        } else {
                            assert(ids_of(old_tabs)[k as int] < ids_of(old_tabs)[i]);
                        }
                    }
                }
            }
        }
    }

    /// Closes every tab that belongs to `service` and selects again.
    pub fn remove_service(&mut self, service: &ServiceRef)
        requires
            old(self).wf(),
        ensures
            final(self).wf(),
            post_remove_service(*old(self), *final(self), service),
    {
        let ghost orig = self.spec_tabs();
        let ghost mut j: int = 0;
        let mut i: usize = 0;
        proof {
            reveal_with_fuel(Seq::filter, 1);
            assert(orig.take(0) =~= Seq::<Tab>::empty());
            assert(self.tabs@.take(0) =~= Seq::<Tab>::empty());
            assert(orig.skip(0) =~= orig);
        }
        while i < self.tabs.len()
            invariant
                0 <= i <= j <= orig.len(),
                self.tabs@.len() == i + (orig.len() - j),
                self.tabs@.take(i as int) == orig.take(j).filter(outside_service(*service)),
                self.tabs@.skip(i as int) == orig.skip(j),
                self.selected == old(self).spec_selected(),
                self.next_id == old(self).spec_next_id(),
                orig == old(self).spec_tabs(),
            decreases orig.len() - j,
        {
            let ghost before = self.tabs@;
            proof {
                assert(before.skip(i as int)[0] == before[i as int]);
                assert(orig.skip(j)[0] == orig[j]);
                assert(before[i as int] == orig[j]);
                assert(orig.take(j + 1).drop_last() =~= orig.take(j));
                assert(orig.take(j + 1).last() == orig[j]);
                reveal_with_fuel(Seq::filter, 1);
            }
            if belongs_to_service(&self.tabs[i].state, service) {
                self.tabs.remove(i);
                proof {
                    reveal_with_fuel(Seq::filter, 1);
                    assert(!outside_service(*service)(orig[j]));
                    assert(orig.take(j + 1).filter(outside_service(*service)) == orig.take(j).filter(outside_service(*service)));
                    assert(self.tabs@.take(i as int) =~= before.take(i as int));
                    assert(self.tabs@.skip(i as int) =~= before.skip(i as int).drop_first());
                    assert(orig.skip(j).drop_first() =~= orig.skip(j + 1));
                    j = j + 1;
                }
            } else {
                i += 1;
                proof {
                    reveal_with_fuel(Seq::filter, 1);
                    assert(outside_service(*service)(orig[j]));
                    assert(orig.take(j + 1).filter(outside_service(*service)) == orig.take(j).filter(outside_service(*service)).push(orig[j]));
                    assert(self.tabs@.take(i as int) =~= before.take(i - 1).push(orig[j]));
                    assert(self.tabs@.skip(i as int) =~= before.skip(i - 1).drop_first());
                    assert(orig.skip(j).drop_first() =~= orig.skip(j + 1));
                    j = j + 1;
                }
            }
        }
        proof {
            assert(j == orig.len());
            assert(self.tabs@ =~= self.tabs@.take(i as int));
            assert(orig.take(j) =~= orig);
            lemma_filter_ids(orig, outside_service(*service));
            assert(self.tabs@ == orig.filter(outside_service(*service)));
            assert forall|k: int| 0 <= k < self.spec_ids().len() implies self.spec_ids()[k] < self.spec_next_id() by {
                let x = self.spec_ids()[k];
                assert(ids_of(orig.filter(outside_service(*service)))[k] == x);
                assert(ids_of(orig.filter(outside_service(*service))).contains(x));
                assert(ids_of(orig).contains(x));
                let m = choose|m: int| 0 <= m < ids_of(orig).len() && ids_of(orig)[m] == x;
                assert(ids_of(orig)[m] < self.next_id);
            }
        }
        self.update_selected_after_remove();
    }

    /// Hands new options to every tab of `service`.
    pub fn set_service_options(&mut self, service: &ServiceRef, options: &ServiceOptions)
        requires
            old(self).wf(),
        ensures
            final(self).wf(),
            post_set_service_options(*old(self), *final(self), service, options),
    {
        let ghost orig = self.spec_tabs();
        let mut i: usize = 0;
        while i < self.tabs.len()
            invariant
                i <= self.tabs@.len(),
                self.tabs@.len() == orig.len(),
                forall|k: int| 0 <= k < orig.len() ==> (#[trigger] self.tabs@[k]).id == orig[k].id,
                self.selected == old(self).spec_selected(),
                self.next_id == old(self).spec_next_id(),
                orig == old(self).spec_tabs(),
                forall|k: int| i <= k < orig.len() ==> (#[trigger] self.tabs@[k]) == orig[k],
                forall|k: int| 0 <= k < i ==> {
                    let t = orig[k].state;
                    let u = #[trigger] self.tabs@[k].state;
                    match t {
                        TabState::Method(m) => if same_service(m.method.service, *service) {
                            u matches TabState::Method(n) && n.service_options == *options && n.method == m.method
                                && n.address == m.address && n.request_valid == m.request_valid
                        } else {
                            u == t
                        },
                        TabState::Options(o) => if same_service(o.service, *service) {
                            u matches TabState::Options(p) && p.service == o.service && p.verify_certs
                                == options.verify_certs && match options.default_address {
                                Some(a) => p.default_address.wf() && p.default_address.spec_text() == a@,
                                None => p.default_address == o.default_address,
                            }
                        } else {
                            u == t
                        },
                        _ => u == t,
                    }
                },
            decreases orig.len() - i,
        {
            let tab = &mut self.tabs[i];
            match &mut tab.state {
                TabState::Method(m) => {
                    if is_same_service(&m.method.service, service) {
                        m.set_service_options(options.duplicate());
                    }
                },
                TabState::Options(o) => {
                    if is_same_service(&o.service, service) {
                        o.set_service_options(options.duplicate());
                    }
                },
                _ => {},
            }
            i += 1;
        }
        proof {
            assert(self.spec_ids() =~= ids_of(orig));
        }
    }
}

/// In increasing ids, `index_of` finds the one position of an id.
pub proof fn lemma_index_of_unique(ids: Seq<TabId>, k: int)
    requires
        increasing(ids),
        0 <= k < ids.len(),
    ensures
        ids.index_of(ids[k]) == k,
{
    assert(ids.contains(ids[k]));
    let j = ids.index_of(ids[k]);
    assert(ids[j] == ids[k]);
    if j < k {
        assert(ids[j] < ids[k]);
    } else if j > k {
        assert(ids[k] < ids[j]);
    }
}

/// Removing an id keeps the others increasing.
pub proof fn lemma_remove_increasing(ids: Seq<TabId>, k: int)
    requires
        increasing(ids),
        0 <= k < ids.len(),
    ensures
        increasing(ids.remove(k)),
        forall|x: TabId| ids.remove(k).contains(x) ==> ids.contains(x),
{
    let r = ids.remove(k);
    assert forall|i: int, j: int| 0 <= i < j < r.len() implies r[i] < r[j] by {
        let i0 = if i < k { i } else { i + 1 };
        let j0 = if j < k { j } else { j + 1 };
        assert(r[i] == ids[i0]);
        assert(r[j] == ids[j0]);
    }
    assert forall|x: TabId| r.contains(x) implies ids.contains(x) by {
        let i = choose|i: int| 0 <= i < r.len() && r[i] == x;
        let i0 = if i < k { i } else { i + 1 };
        assert(ids[i0] == x);
    }
}

/// In increasing ids, the first id greater than `s` is one of the ids.
pub proof fn lemma_first_greater_in(ids: Seq<TabId>, s: TabId)
    ensures
        first_greater(ids, s) matches Some(t) ==> ids.contains(t) && t > s,
    decreases ids.len(),
{
    if ids.len() > 0 && !(ids[0] > s) {
        lemma_first_greater_in(ids.drop_first(), s);
        if let Some(t) = first_greater(ids.drop_first(), s) {
            let k = choose|k: int| 0 <= k < ids.drop_first().len() && ids.drop_first()[k] == t;
            assert(ids[k + 1] == t);
        }
    }
}

/// The first id not less than `s` is one of the ids.
pub proof fn lemma_first_at_least_in(ids: Seq<TabId>, s: TabId)
    ensures
        first_at_least(ids, s) matches Some(t) ==> ids.contains(t) && t >= s,
    decreases ids.len(),
{
    if ids.len() > 0 && !(ids[0] >= s) {
        lemma_first_at_least_in(ids.drop_first(), s);
        if let Some(t) = first_at_least(ids.drop_first(), s) {
            let k = choose|k: int| 0 <= k < ids.drop_first().len() && ids.drop_first()[k] == t;
            assert(ids[k + 1] == t);
        }
    }
}

/// The last id less than `s` is one of the ids.
pub proof fn lemma_last_less_in(ids: Seq<TabId>, s: TabId)
    ensures
        last_less(ids, s) matches Some(t) ==> ids.contains(t) && t < s,
    decreases ids.len(),
{
    if ids.len() > 0 && !(ids.last() < s) {
        lemma_last_less_in(ids.drop_last(), s);
        if let Some(t) = last_less(ids.drop_last(), s) {
            let k = choose|k: int| 0 <= k < ids.drop_last().len() && ids.drop_last()[k] == t;
            assert(ids[k] == t);
        }
    }
}

} // verus!

verus! {

/// Keeping some tabs keeps their ids increasing and introduces no new id.
pub proof fn lemma_filter_ids(tabs: Seq<Tab>, keep: spec_fn(Tab) -> bool)
    requires
        increasing(ids_of(tabs)),
    ensures
        increasing(ids_of(tabs.filter(keep))),
        forall|x: TabId| ids_of(tabs.filter(keep)).contains(x) ==> ids_of(tabs).contains(x),
    decreases tabs.len(),
{
    reveal_with_fuel(Seq::filter, 1);
    if tabs.len() > 0 {
        let init = tabs.drop_last();
        assert(ids_of(init) =~= ids_of(tabs).drop_last());
        lemma_filter_ids(init, keep);
        let f = init.filter(keep);
        let last = tabs.last();
        assert(forall|x: TabId| ids_of(init).contains(x) ==> ids_of(tabs).contains(x)) by {
            assert forall|x: TabId| ids_of(init).contains(x) implies ids_of(tabs).contains(x) by {
                let k = choose|k: int| 0 <= k < ids_of(init).len() && ids_of(init)[k] == x;
                assert(ids_of(tabs)[k] == x);
            }
        }
        if keep(last) {
            let g = f.push(last);
            assert(ids_of(g) =~= ids_of(f).push(last.id));
            assert forall|x: TabId| ids_of(f).contains(x) implies x < last.id by {
                assert(ids_of(init).contains(x));
                let k = choose|k: int| 0 <= k < ids_of(init).len() && ids_of(init)[k] == x;
                assert(ids_of(tabs)[k] < ids_of(tabs)[tabs.len() - 1]);
            }
            assert forall|i: int, j: int| 0 <= i < j < ids_of(g).len() implies ids_of(g)[i] < ids_of(g)[j] by {
                if j == ids_of(g).len() - 1 {
                    assert(ids_of(f).contains(ids_of(g)[i]));
                }
            }
            assert forall|x: TabId| ids_of(g).contains(x) implies ids_of(tabs).contains(x) by {
                let k = choose|k: int| 0 <= k < ids_of(g).len() && ids_of(g)[k] == x;
                if k < ids_of(f).len() {
                    assert(ids_of(f).contains(x));
                } else {
                    assert(ids_of(tabs)[tabs.len() - 1] == x);
                }
            }
        }
    }
}

} // verus!

verus! {

/// Whether a tab is selected (the menu enables closing and clearing then).
pub fn has_selected_tab(state: &State) -> (b: bool)
    ensures
        b == state.spec_selected() is Some,
{
    state.selected_tab().is_some()
}

/// Whether "next tab" is enabled: the selection is not the last tab.
pub fn can_select_next_tab(state: &State) -> (b: bool)
    ensures
        b == (state.spec_selected() != (if state.spec_ids().len() == 0 {
            None
        } else {
            Some(state.spec_ids().last())
        })),
{
    state.selected_tab() != state.last_tab()
}

/// Whether "previous tab" is enabled: the selection is not the first tab.
pub fn can_select_prev_tab(state: &State) -> (b: bool)
    ensures
        b == (state.spec_selected() != (if state.spec_ids().len() == 0 {
            None
        } else {
            Some(state.spec_ids()[0])
        })),
{
    state.selected_tab() != state.first_tab()
}

/// In increasing ids, the first id after the one at `p` is the one at `p + 1`.
pub proof fn lemma_first_greater_at(ids: Seq<TabId>, p: int)
    requires
        increasing(ids),
        0 <= p < ids.len(),
    ensures
        first_greater(ids, ids[p]) == (if p + 1 < ids.len() {
            Some(ids[p + 1])
        } else {
            None::<TabId>
        }),
    decreases ids.len(),
{
    if p > 0 {
        assert(ids[0] < ids[p]);
        let rest = ids.drop_first();
        assert(rest[p - 1] == ids[p]);
        assert(increasing(rest));
        lemma_first_greater_at(rest, p - 1);
    } else {
        if ids.len() > 1 {
            assert(ids[0] < ids[1]);
        } else {
            assert(ids.drop_first().len() == 0);
        }
        if ids.len() > 1 {
            assert(!(ids[0] > ids[0]));
            assert(ids.drop_first()[0] == ids[1]);
            assert(first_greater(ids.drop_first(), ids[0]) == Some(ids[1]));
        } else {
            assert(first_greater(ids.drop_first(), ids[0]) is None);
        }
    }
}

/// In increasing ids, the last id before the one at `p` is the one at `p - 1`.
pub proof fn lemma_last_less_at(ids: Seq<TabId>, p: int)
    requires
        increasing(ids),
        0 <= p < ids.len(),
    ensures
        last_less(ids, ids[p]) == (if p > 0 {
            Some(ids[p - 1])
        } else {
            None::<TabId>
        }),
    decreases ids.len(),
{
    let n = ids.len();
    if p < n - 1 {
        assert(ids[p] < ids[n - 1]);
        let init = ids.drop_last();
        assert(init[p] == ids[p]);
        assert(increasing(init));
        lemma_last_less_at(init, p);
        if p > 0 {
            assert(init[p - 1] == ids[p - 1]);
        }
    } else {
        if p > 0 {
            assert(ids.drop_last().last() == ids[p - 1]);
            assert(ids[p - 1] < ids[p]);
            assert(last_less(ids.drop_last(), ids[p]) == Some(ids[p - 1]));
        } else {
            assert(ids.drop_last().len() == 0);
            assert(last_less(ids.drop_last(), ids[p]) is None);
        }
    }
}

/// Moving to the next tab and then back to the previous one returns to the
/// tab that was selected, whenever there was a next tab.
pub proof fn law_next_then_prev(state: State)
    requires
        state.wf(),
        state.spec_selected() matches Some(s) && first_greater(state.spec_ids(), s) is Some,
    ensures
        select_prev(state.spec_ids(), select_next(state.spec_ids(), state.spec_selected()))
            == state.spec_selected(),
{
    let ids = state.spec_ids();
    let s = state.spec_selected()->Some_0;
    let p = ids.index_of(s);
    lemma_first_greater_at(ids, p);
    lemma_last_less_at(ids, p + 1);
}

/// Moving to the previous tab and then to the next one returns to the tab
/// that was selected, whenever there was a previous tab.
pub proof fn law_prev_then_next(state: State)
    requires
        state.wf(),
        state.spec_selected() matches Some(s) && last_less(state.spec_ids(), s) is Some,
    ensures
        select_next(state.spec_ids(), select_prev(state.spec_ids(), state.spec_selected()))
            == state.spec_selected(),
{
    let ids = state.spec_ids();
    let s = state.spec_selected()->Some_0;
    let p = ids.index_of(s);
    lemma_last_less_at(ids, p);
    lemma_first_greater_at(ids, p - 1);
}

/// "Next tab" is enabled exactly when moving to the next tab changes the
/// selection, and likewise for "previous tab".
pub proof fn law_menu_enables_moves(state: State)
    requires
        state.wf(),
        state.spec_selected() is Some,
    ensures
        (state.spec_selected() != Some(state.spec_ids().last()))
            <==> select_next(state.spec_ids(), state.spec_selected()) != state.spec_selected(),
        (state.spec_selected() != Some(state.spec_ids()[0]))
            <==> select_prev(state.spec_ids(), state.spec_selected()) != state.spec_selected(),
{
    let ids = state.spec_ids();
    let s = state.spec_selected()->Some_0;
    let p = ids.index_of(s);
    lemma_first_greater_at(ids, p);
    lemma_last_less_at(ids, p);
    if p + 1 < ids.len() {
        assert(ids[p] < ids[p + 1]);
        assert(ids[p] < ids.last());
    }
    if p > 0 {
        assert(ids[0] < ids[p]);
    }
}

/// After tabs are removed the selection is kept when one is left: it is
/// `None` only when no tab remains or nothing was selected.
pub proof fn law_reselect_keeps_a_selection(ids: Seq<TabId>, selected: Option<TabId>)
    ensures
        reselect(ids, selected) is None <==> (selected is None || ids.len() == 0),
        reselect(ids, selected) matches Some(t) ==> ids.contains(t),
{
    if let Some(s) = selected {
        lemma_first_at_least_in(ids, s);
        lemma_last_less_in(ids, s);
        if ids.len() > 0 {
            lemma_none_below_none_above(ids, s);
        }
    }
}

proof fn lemma_first_at_least_least(ids: Seq<TabId>, s: TabId)
    requires
        increasing(ids),
    ensures
        (exists|i: int| 0 <= i < ids.len() && #[trigger] ids[i] >= s) ==> (first_at_least(ids, s) matches Some(t) && forall|i: int|
            0 <= i < ids.len() && #[trigger] ids[i] >= s ==> t <= ids[i]),
    decreases ids.len(),
{
    if ids.len() > 0 {
        let rest = ids.drop_first();
        assert forall|i: int, j: int| 0 <= i < j < rest.len() implies rest[i] < rest[j] by {
            assert(rest[i] == ids[i + 1] && rest[j] == ids[j + 1]);
        }
        lemma_first_at_least_least(rest, s);
        if ids[0] >= s {
            assert forall|i: int| 0 <= i < ids.len() && #[trigger] ids[i] >= s implies ids[0] <= ids[i] by {
                if i > 0 {
                    assert(ids[0] < ids[i]);
                }
            }
        } else if exists|i: int| 0 <= i < ids.len() && #[trigger] ids[i] >= s {
            let i = choose|i: int| 0 <= i < ids.len() && #[trigger] ids[i] >= s;
            assert(rest[i - 1] == ids[i]);
            assert forall|j: int| 0 <= j < ids.len() && #[trigger] ids[j] >= s implies first_at_least(ids, s)->Some_0 <= ids[j] by {
                assert(rest[j - 1] == ids[j]);
            }
        }
    }
}

/// Where the selected tab is removed, the selection moves to the nearest
/// tab after it, and only where none is after it to the last tab before it.
pub proof fn law_reselect_prefers_next(ids: Seq<TabId>, s: TabId)
    requires
        increasing(ids),
    ensures
        (exists|i: int| 0 <= i < ids.len() && #[trigger] ids[i] >= s) ==> (reselect(ids, Some(s)) matches Some(t) && t
            >= s && ids.contains(t) && forall|i: int| 0 <= i < ids.len() && #[trigger] ids[i] >= s ==> t <= ids[i]),
        (forall|i: int| 0 <= i < ids.len() ==> #[trigger] ids[i] < s) && ids.len() > 0 ==> reselect(ids, Some(s)) == Some(
            ids.last(),
        ),
{
    lemma_first_at_least_least(ids, s);
    lemma_first_at_least_in(ids, s);
    if ids.len() > 0 && forall|i: int| 0 <= i < ids.len() ==> #[trigger] ids[i] < s {
        if let Some(t) = first_at_least(ids, s) {
            let k = choose|k: int| 0 <= k < ids.len() && ids[k] == t;
            assert(ids[k] < s);
        }
        assert(ids[ids.len() - 1] < s);
    }
}

proof fn lemma_none_below_none_above(ids: Seq<TabId>, s: TabId)
    requires
        ids.len() > 0,
    ensures
        !(first_at_least(ids, s) is None && last_less(ids, s) is None),
    decreases ids.len(),
{
    if first_at_least(ids, s) is None {
        lemma_first_at_least_none(ids, s);
        assert(ids.last() < s);
    }
}

proof fn lemma_first_at_least_none(ids: Seq<TabId>, s: TabId)
    requires
        first_at_least(ids, s) is None,
    ensures
        forall|i: int| 0 <= i < ids.len() ==> ids[i] < s,
    decreases ids.len(),
{
    if ids.len() > 0 {
        lemma_first_at_least_none(ids.drop_first(), s);
        assert forall|i: int| 0 <= i < ids.len() implies ids[i] < s by {
            if i > 0 {
                assert(ids[i] == ids.drop_first()[i - 1]);
            }
        }
    }
}

/// In a consistent body, the tab with the id of the tab at `k` is that tab.
proof fn lemma_spec_tab_at(s: State, k: int)
    requires
        s.wf(),
        0 <= k < s.spec_tabs().len(),
    ensures
        s.spec_tab(s.spec_tabs()[k].id) == Some(s.spec_tabs()[k].state),
{
    let id = s.spec_tabs()[k].id;
    assert(s.spec_ids()[k] == id);
    let i = choose|i: int| 0 <= i < s.spec_tabs().len() && s.spec_tabs()[i].id == id;
    assert(s.spec_ids()[i] == id);
    if i < k {
        assert(s.spec_ids()[i] < s.spec_ids()[k]);
    } else if i > k {
        assert(s.spec_ids()[k] < s.spec_ids()[i]);
    }
}

/// Where the query matches no tab, it matches the first time a tab pushed
/// after them that it matches.
proof fn lemma_first_match_push(tabs: Seq<Tab>, t: Tab, q: TabQuery)
    requires
        first_match(tabs, q) is None,
        tab_matches(t.state, q),
    ensures
        first_match(tabs.push(t), q) == Some(tabs.len() as int),
{
    let all = tabs.push(t);
    assert(tab_matches(all[tabs.len() as int].state, q));
    let k = choose|k: int|
        0 <= k < all.len() && tab_matches(all[k].state, q) && forall|j: int|
            0 <= j < k ==> !tab_matches(#[trigger] all[j].state, q);
    if k < tabs.len() {
        assert(tab_matches(tabs[k].state, q));
    }
    assert forall|j: int| 0 <= j < tabs.len() implies !tab_matches(#[trigger] all[j].state, q) by {
        if tab_matches(all[j].state, q) {
            assert(tab_matches(tabs[j].state, q));
        }
    }
}

/// A tab the query matches has a first one before or at it.
proof fn lemma_least_match(tabs: Seq<Tab>, q: TabQuery, k: int)
    requires
        0 <= k < tabs.len(),
        tab_matches(tabs[k].state, q),
    ensures
        exists|m: int|
            0 <= m < tabs.len() && tab_matches(tabs[m].state, q) && forall|j: int|
                0 <= j < m ==> !tab_matches(#[trigger] tabs[j].state, q),
    decreases k,
{
    if exists|j: int| 0 <= j < k && tab_matches(#[trigger] tabs[j].state, q) {
        let j = choose|j: int| 0 <= j < k && tab_matches(#[trigger] tabs[j].state, q);
        lemma_least_match(tabs, q, j);
    } else {
        assert(forall|j: int| 0 <= j < k ==> !tab_matches(#[trigger] tabs[j].state, q));
    }
}

/// Where the query matches a tab, the first match is one.
proof fn lemma_first_match_some(tabs: Seq<Tab>, q: TabQuery)
    requires
        first_match(tabs, q) is Some,
    ensures
        0 <= first_match(tabs, q)->Some_0 < tabs.len(),
        tab_matches(tabs[first_match(tabs, q)->Some_0].state, q),
{
    let k = choose|k: int| 0 <= k < tabs.len() && #[trigger] tab_matches(tabs[k].state, q);
    lemma_least_match(tabs, q, k);
}

/// `select_or_create_method_tab` is idempotent: calling it twice in a row
/// for the same method equals calling it once. After a first call the
/// selected tab is one of the method, so a second call, whatever options and
/// request it is given, keeps the tabs, the selection and the next id.
pub proof fn law_select_or_create_method_tab_twice(
    s0: State,
    s1: State,
    s2: State,
    method: &MethodRef,
    options1: ServiceOptions,
    request1: String,
    valid1: bool,
    options2: ServiceOptions,
    request2: String,
    valid2: bool,
)
    requires
        s0.wf(),
        s1.wf(),
        post_select_or_create_method_tab(s0, s1, method, options1, request1, valid1),
        post_select_or_create_method_tab(s1, s2, method, options2, request2, valid2),
    ensures
        s2.spec_tabs() == s1.spec_tabs(),
        s2.spec_selected() == s1.spec_selected(),
        s2.spec_next_id() == s1.spec_next_id(),
{
    let q = TabQuery::Method(method);
    if !(s0.spec_selected_tab() matches Some(t) && tab_matches(t, q)) {
        match first_match(s0.spec_tabs(), q) {
            Some(k) => {
                lemma_first_match_some(s0.spec_tabs(), q);
                lemma_spec_tab_at(s1, k);
            },
            None => {
                lemma_spec_tab_at(s1, s1.spec_tabs().len() - 1);
            },
        }
    }
    assert(s1.spec_selected_tab() matches Some(t) && tab_matches(t, q));
}

/// After `select_or_create_method_tab`, the selected tab is a method tab of
/// the method asked for: one of the same service (by full name) and the same
/// method name. A tab of a method of the same name in another service is not
/// taken for it: where no tab of the body is of that service and name, a new
/// tab is opened.
pub proof fn law_select_or_create_method_tab_selects_it(
    s0: State,
    s1: State,
    method: &MethodRef,
    options: ServiceOptions,
    request: String,
    request_valid: bool,
)
    requires
        s0.wf(),
        s1.wf(),
        post_select_or_create_method_tab(s0, s1, method, options, request, request_valid),
    ensures
        s1.spec_selected_tab() matches Some(TabState::Method(m)) && m.method.service.full_name@
            == method.service.full_name@ && m.method.name@ == method.name@,
        (forall|k: int|
            0 <= k < s0.spec_tabs().len() ==> !(#[trigger] s0.spec_tabs()[k].state matches TabState::Method(m)
                && m.method.service.full_name@ == method.service.full_name@ && m.method.name@ == method.name@))
            ==> s1.spec_tabs().len() == s0.spec_tabs().len() + 1,
{
    let q = TabQuery::Method(method);
    if !(s0.spec_selected_tab() matches Some(t) && tab_matches(t, q)) {
        match first_match(s0.spec_tabs(), q) {
            Some(k) => {
                lemma_first_match_some(s0.spec_tabs(), q);
                lemma_spec_tab_at(s1, k);
            },
            None => {
                lemma_spec_tab_at(s1, s1.spec_tabs().len() - 1);
            },
        }
    }
    assert(s1.spec_selected_tab() matches Some(t) && tab_matches(t, q));
    if forall|k: int|
        0 <= k < s0.spec_tabs().len() ==> !(#[trigger] s0.spec_tabs()[k].state matches TabState::Method(m)
            && m.method.service.full_name@ == method.service.full_name@ && m.method.name@ == method.name@) {
        assert(forall|k: int| 0 <= k < s0.spec_tabs().len() ==> !tab_matches(#[trigger] s0.spec_tabs()[k].state, q));
        if let Some(sel) = s0.spec_selected() {
            if s0.spec_tab(sel) is Some {
                let i = choose|i: int| 0 <= i < s0.spec_tabs().len() && s0.spec_tabs()[i].id == sel;
                assert(!tab_matches(s0.spec_tabs()[i].state, q));
            }
        }
        assert(first_match(s0.spec_tabs(), q) is None);
    }
}

/// After `select_or_create_options_tab`, the selected tab is the options tab
/// of the service asked for, by full name; where no options tab of a service
/// of that full name is open, a new tab is opened.
pub proof fn law_select_or_create_options_tab_selects_it(
    s0: State,
    s1: State,
    service: &ServiceRef,
    options: ServiceOptions,
)
    requires
        s0.wf(),
        s1.wf(),
        post_select_or_create_options_tab(s0, s1, service, options),
    ensures
        s1.spec_selected_tab() matches Some(TabState::Options(o)) && o.service.full_name@ == service.full_name@,
        (forall|k: int|
            0 <= k < s0.spec_tabs().len() ==> !(#[trigger] s0.spec_tabs()[k].state matches TabState::Options(o)
                && o.service.full_name@ == service.full_name@)) ==> s1.spec_tabs().len() == s0.spec_tabs().len() + 1,
{
    let q = TabQuery::Options(service);
    if !(s0.spec_selected_tab() matches Some(t) && tab_matches(t, q)) {
        match first_match(s0.spec_tabs(), q) {
            Some(k) => {
                lemma_first_match_some(s0.spec_tabs(), q);
                lemma_spec_tab_at(s1, k);
            },
            None => {
                lemma_spec_tab_at(s1, s1.spec_tabs().len() - 1);
            },
        }
    }
    assert(s1.spec_selected_tab() matches Some(t) && tab_matches(t, q));
    if forall|k: int|
        0 <= k < s0.spec_tabs().len() ==> !(#[trigger] s0.spec_tabs()[k].state matches TabState::Options(o)
            && o.service.full_name@ == service.full_name@) {
        assert(forall|k: int| 0 <= k < s0.spec_tabs().len() ==> !tab_matches(#[trigger] s0.spec_tabs()[k].state, q));
        if let Some(sel) = s0.spec_selected() {
            if s0.spec_tab(sel) is Some {
                let i = choose|i: int| 0 <= i < s0.spec_tabs().len() && s0.spec_tabs()[i].id == sel;
                assert(!tab_matches(s0.spec_tabs()[i].state, q));
            }
        }
        assert(first_match(s0.spec_tabs(), q) is None);
    }
}

/// Removing a service closes its tabs and only those: no method tab of one
/// of its methods and no options tab of it is left (services compared by
/// full name), and every other tab, the compiler and reflection tabs among
/// them, stays open.
pub proof fn law_remove_service_closes_its_tabs(s0: State, s1: State, service: &ServiceRef)
    requires
        post_remove_service(s0, s1, service),
    ensures
        forall|k: int|
            0 <= k < s1.spec_tabs().len() ==> !(#[trigger] s1.spec_tabs()[k].state matches TabState::Method(m)
                && m.method.service.full_name@ == service.full_name@),
        forall|k: int|
            0 <= k < s1.spec_tabs().len() ==> !(#[trigger] s1.spec_tabs()[k].state matches TabState::Options(o)
                && o.service.full_name@ == service.full_name@),
        forall|i: int|
            0 <= i < s0.spec_tabs().len() && !(s0.spec_tabs()[i].state matches TabState::Method(m)
                && m.method.service.full_name@ == service.full_name@) && !(s0.spec_tabs()[i].state matches TabState::Options(o)
                && o.service.full_name@ == service.full_name@) ==> s1.spec_tabs().contains(#[trigger] s0.spec_tabs()[i]),
        s1.spec_tabs().len() <= s0.spec_tabs().len(),
{
    let pred = outside_service(*service);
    let t0 = s0.spec_tabs();
    t0.lemma_filter_len(pred);
    assert forall|k: int| 0 <= k < s1.spec_tabs().len() implies !belongs_to(#[trigger] s1.spec_tabs()[k].state, *service) by {
        t0.lemma_filter_pred(pred, k);
    }
    assert forall|i: int|
        0 <= i < t0.len() && !(t0[i].state matches TabState::Method(m) && m.method.service.full_name@
            == service.full_name@) && !(t0[i].state matches TabState::Options(o) && o.service.full_name@
            == service.full_name@) implies s1.spec_tabs().contains(#[trigger] t0[i]) by {
        assert(pred(t0[i]));
        t0.lemma_filter_contains(pred, i);
    }
}

/// Opening the compiler options tab again only keeps it selected.
pub proof fn law_select_or_create_compiler_tab_twice(
    s0: State,
    s1: State,
    s2: State,
    first: Seq<String>,
    second: Seq<String>,
)
    requires
        s0.wf(),
        post_select_or_create_compiler_tab(s0, s1, first),
        post_select_or_create_compiler_tab(s1, s2, second),
    ensures
        s2.spec_tabs() == s1.spec_tabs(),
        s2.spec_selected() == s1.spec_selected(),
{
    if first_match(s0.spec_tabs(), TabQuery::Compile) is None {
        assert(s1.spec_tabs() =~= s0.spec_tabs().push(s1.spec_tabs().last()));
        lemma_first_match_push(s0.spec_tabs(), s1.spec_tabs().last(), TabQuery::Compile);
    }
}

} // verus!
