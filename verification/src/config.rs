//! The saved form of the window: the sets of descriptor files, the services
//! of the sidebar and the tabs of the body, with services named by the index
//! of their file set and their full name.
use vstd::prelude::*;

use crate::body::{ids_of, increasing, State, Tab, TabId};
use crate::compile::CompileOptions;
use crate::metadata::EditableState;
use crate::request::{RequestState, ServiceOptions};
use crate::sidebar::SidebarService;
use crate::stream::StreamState;
use crate::tab::{MethodRef, ServiceRef, TabState};

verus! {

/// A service as the saved settings name it: the index of its set of
/// descriptor files and its full name.
#[derive(Debug, Clone, PartialEq, Eq)]
pub struct ServiceKey {
    pub file_set: usize,
    pub service: String,
}

/// A service of the sidebar as saved.
#[derive(Debug, Clone)]
pub struct ServiceConfig {
    pub idx: ServiceKey,
    pub expanded: bool,
    pub options: ServiceOptions,
}

/// A tab as saved. A method tab keeps the method's index in its service and
/// everything typed into it; `request_valid` tells whether its request text
/// is a valid message of the method's input type.
#[derive(Debug)]
pub enum TabConfig {
    Method {
        idx: ServiceKey,
        method: usize,
        address: String,
        request: String,
        request_valid: bool,
        request_metadata: EditableState,
        stream: StreamState,
        options: ServiceOptions,
    },
    Options { idx: ServiceKey },
    Compile,
    Reflection { options: ServiceOptions },
}

/// The tabs as saved, and the position of the selected one.
#[derive(Debug)]
pub struct BodyConfig {
    pub tabs: Vec<TabConfig>,
    pub selected: Option<usize>,
}

/// The saved settings: the ids of the sets of descriptor files that services
/// are named by, the sidebar's services, the body's tabs and the compiler
/// options.
#[derive(Debug)]
pub struct AppConfig {
    pub file_sets: Vec<u64>,
    pub services: Vec<ServiceConfig>,
    pub body: BodyConfig,
    pub compile_options: CompileOptions,
}

/// A service of a loaded set of descriptor files, with its methods in order.
#[derive(Debug, Clone)]
pub struct ServiceModel {
    pub service: ServiceRef,
    pub methods: Vec<MethodRef>,
}

/// A loaded set of descriptor files: its services in order.
#[derive(Debug, Clone)]
pub struct FileSetModel {
    pub services: Vec<ServiceModel>,
}

/// Why saved settings cannot be restored.
#[derive(Debug, Clone, Copy, PartialEq, Eq, Structural)]
pub enum ConfigError {
    InvalidFileSetIndex,
    InvalidServiceIndex,
    InvalidMethodIndex,
    OptionsTabWithoutService,
}

impl ConfigError {
    pub open spec fn spec_message(self) -> Seq<char> {
        match self {
            ConfigError::InvalidFileSetIndex => "invalid file set index"@,
            ConfigError::InvalidServiceIndex => "invalid service index"@,
            ConfigError::InvalidMethodIndex => "invalid method index"@,
            ConfigError::OptionsTabWithoutService => "options tab has no associated service"@,
        }
    }

    /// The text the error is shown with.
    pub fn message(&self) -> (s: String)
        ensures
            s@ == self.spec_message(),
    {
        match self {
            ConfigError::InvalidFileSetIndex => "invalid file set index".to_owned(),
            ConfigError::InvalidServiceIndex => "invalid service index".to_owned(),
            ConfigError::InvalidMethodIndex => "invalid method index".to_owned(),
            ConfigError::OptionsTabWithoutService => "options tab has no associated service".to_owned(),
        }
    }
}

/// The position of the first `x` in `s`.
pub open spec fn first_pos(s: Seq<u64>, x: u64) -> Option<int>
    decreases s.len(),
{
    if s.len() == 0 {
        None
    } else {
        match first_pos(s.drop_last(), x) {
            Some(k) => Some(k),
            None => if s.last() == x {
                Some(s.len() - 1)
            } else {
                None
            },
        }
    }
}

/// The items of `s` in the order they first occur, each once.
pub open spec fn dedup(s: Seq<u64>) -> Seq<u64>
    decreases s.len(),
{
    if s.len() == 0 {
        Seq::empty()
    } else {
        let d = dedup(s.drop_last());
        if d.contains(s.last()) {
            d
        } else {
            d.push(s.last())
        }
    }
}

/// `s` holds `x` exactly when all but its last item do or its last item is
/// `x`.
proof fn lemma_contains_last(s: Seq<u64>, x: u64)
    requires
        s.len() > 0,
    ensures
        s.contains(x) <==> (s.drop_last().contains(x) || s.last() == x),
{
    let init = s.drop_last();
    if s.contains(x) {
        let k = choose|k: int| 0 <= k < s.len() && s[k] == x;
        if k < s.len() - 1 {
            assert(init[k] == x);
        }
    }
    if init.contains(x) {
        let k = choose|k: int| 0 <= k < init.len() && init[k] == x;
        assert(s[k] == x);
    }
    if s.last() == x {
        assert(s[s.len() - 1] == x);
    }
}

/// An item is kept by `dedup` exactly when it occurs.
pub proof fn lemma_dedup_contains(s: Seq<u64>, x: u64)
    ensures
        dedup(s).contains(x) <==> s.contains(x),
    decreases s.len(),
{
    if s.len() > 0 {
        let init = s.drop_last();
        let d = dedup(init);
        lemma_dedup_contains(init, x);
        lemma_contains_last(s, x);
        if d.contains(s.last()) {
            lemma_dedup_contains(init, s.last());
        } else {
            lemma_contains_last(d.push(s.last()), x);
            assert(d.push(s.last()).drop_last() =~= d);
        }
    }
}

/// `dedup` keeps each item once.
pub proof fn lemma_dedup_distinct(s: Seq<u64>)
    ensures
        forall|i: int, j: int| 0 <= i < j < dedup(s).len() ==> dedup(s)[i] != dedup(s)[j],
    decreases s.len(),
{
    if s.len() > 0 {
        let init = s.drop_last();
        let d = dedup(init);
        lemma_dedup_distinct(init);
        if !d.contains(s.last()) {
            let e = d.push(s.last());
            assert forall|i: int, j: int| 0 <= i < j < e.len() implies e[i] != e[j] by {
                if j == e.len() - 1 {
                    assert(d[i] == e[i]);
                }
            }
        }
    }
}

/// The first position of an item that occurs is where it is.
pub proof fn lemma_first_pos(s: Seq<u64>, x: u64)
    ensures
        match first_pos(s, x) {
            Some(k) => 0 <= k < s.len() && s[k] == x && forall|j: int| 0 <= j < k ==> s[j] != x,
            None => !s.contains(x),
        },
    decreases s.len(),
{
    if s.len() > 0 {
        let init = s.drop_last();
        lemma_first_pos(init, x);
        lemma_contains_last(s, x);
        match first_pos(init, x) {
            Some(k) => {
                assert(s[k] == init[k]);
                assert forall|j: int| 0 <= j < k implies s[j] != x by {
                    assert(s[j] == init[j]);
                }
            },
            None => {
                assert forall|j: int| 0 <= j < s.len() - 1 implies s[j] != x by {
                    assert(s[j] == init[j]);
                    if s[j] == x {
                        assert(init.contains(x));
                    }
                }
            },
        }
    }
}

/// The index of the file set `pool` in `sets`, added at the end when it is
/// not there yet.
pub fn get_or_insert_file_set(sets: &mut Vec<u64>, pool: u64) -> (index: usize)
    requires
        old(sets)@.len() < usize::MAX,
    ensures
        match first_pos(old(sets)@, pool) {
            Some(k) => index == k && final(sets)@ == old(sets)@,
            None => index == old(sets)@.len() && final(sets)@ == old(sets)@.push(pool),
        },
        index < final(sets)@.len(),
        final(sets)@[index as int] == pool,
{
    proof {
        lemma_first_pos(sets@, pool);
    }
    let mut i: usize = 0;
    while i < sets.len()
        invariant
            i <= sets@.len(),
            sets@ == old(sets)@,
            forall|j: int| 0 <= j < i ==> sets@[j] != pool,
        decreases sets@.len() - i,
    {
        if sets[i] == pool {
            proof {
                lemma_first_pos(sets@, pool);
                match first_pos(sets@, pool) {
                    Some(k) => {
                        if k < i {
                            assert(sets@[k] == pool);
                        } else if k > i {
                            assert(sets@[i as int] == pool);
                        }
                    },
                    None => {
                        assert(sets@[i as int] == pool);
                    },
                }
            }
            return i;
        }
        i = i + 1;
    }
    proof {
        assert(!sets@.contains(pool));
    }
    let index = sets.len();
    sets.push(pool);
    index
}

/// The file set of a tab, for the tabs that name a service.
pub open spec fn tab_pool(t: TabState) -> Option<u64> {
    match t {
        TabState::Method(m) => Some(m.method.service.pool),
        TabState::Options(o) => Some(o.service.pool),
        _ => None,
    }
}

/// The file sets that the tabs name, in order.
pub open spec fn tab_pools(tabs: Seq<Tab>) -> Seq<u64>
    decreases tabs.len(),
{
    if tabs.len() == 0 {
        Seq::empty()
    } else {
        let init = tab_pools(tabs.drop_last());
        match tab_pool(tabs.last().state) {
            Some(p) => init.push(p),
            None => init,
        }
    }
}

/// The file sets of the sidebar's services, in order.
pub open spec fn sidebar_pools(services: Seq<SidebarService>) -> Seq<u64> {
    services.map_values(|s: SidebarService| s.service.pool)
}

/// `key` names `service` among the file sets `sets`.
pub open spec fn names_service(key: ServiceKey, service: ServiceRef, sets: Seq<u64>) -> bool {
    &&& key.file_set < sets.len()
    &&& sets[key.file_set as int] == service.pool
    &&& key.service@ == service.full_name@
}

/// `cfg` is the saved form of `tab`, services named among `sets`.
pub open spec fn tab_saved(cfg: TabConfig, tab: TabState, sets: Seq<u64>) -> bool {
    match tab {
        TabState::Method(m) => match cfg {
            TabConfig::Method {
                idx,
                method,
                address,
                request,
                request_valid,
                request_metadata,
                stream,
                options,
            } => {
                &&& names_service(idx, m.method.service, sets)
                &&& method == m.method.index
                &&& address@ == m.address.spec_text()
                &&& request == m.request
                &&& request_valid == m.request_valid
                &&& request_metadata.entries@ == m.request_metadata.entries@
                &&& stream.same(m.stream)
                &&& options == m.service_options
            },
            _ => false,
        },
        TabState::Options(o) => cfg matches TabConfig::Options { idx } && names_service(idx, o.service, sets),
        TabState::Compile(_) => cfg is Compile,
        TabState::Reflection(r) => match cfg {
            TabConfig::Reflection { options } => {
                &&& options.verify_certs == r.verify_certs
                &&& r.address.spec_is_valid() ==> (options.default_address matches Some(a) && a@
                    == r.address.spec_text())
                &&& !r.address.spec_is_valid() ==> options.default_address is None
            },
            _ => false,
        },
    }
}

/// The saved form of a tab.
fn tab_to_config(tab: &TabState, sets: &mut Vec<u64>) -> (res: TabConfig)
    requires
        old(sets)@.len() < usize::MAX,
    ensures
        final(sets)@ == match tab_pool(*tab) {
            Some(p) => if old(sets)@.contains(p) {
                old(sets)@
            } else {
                old(sets)@.push(p)
            },
            None => old(sets)@,
        },
        tab_saved(res, *tab, final(sets)@),
{
    proof {
        if let Some(p) = tab_pool(*tab) {
            lemma_first_pos(sets@, p);
        }
    }
    match tab {
        TabState::Method(m) => {
            let file_set = get_or_insert_file_set(sets, m.method.service.pool);
            TabConfig::Method {
                idx: ServiceKey { file_set, service: m.method.service.full_name.clone() },
                method: m.method.index,
                address: m.address.text().to_owned(),
                request: m.request.clone(),
                request_valid: m.request_valid,
                request_metadata: m.request_metadata.duplicate(),
                stream: m.stream.duplicate(),
                options: m.service_options.duplicate(),
            }
        },
        TabState::Options(o) => {
            let file_set = get_or_insert_file_set(sets, o.service.pool);
            TabConfig::Options { idx: ServiceKey { file_set, service: o.service.full_name.clone() } }
        },
        TabState::Compile(_) => TabConfig::Compile,
        TabState::Reflection(r) => TabConfig::Reflection { options: r.service_options() },
    }
}

/// The position of the tab with id `id`.
pub open spec fn position_of(ids: Seq<TabId>, id: TabId) -> Option<int> {
    if ids.contains(id) {
        Some(choose|k: int| 0 <= k < ids.len() && ids[k] == id)
    } else {
        None
    }
}

/// The saved form of the window: file sets are listed in the order the
/// sidebar's services and then the tabs first name them, services and tabs
/// keep their order, and the selected tab is saved as its position.
pub fn to_config(sidebar: &[SidebarService], compile_options: &CompileOptions, body: &State) -> (res: AppConfig)
    requires
        body.wf(),
        sidebar@.len() + body.spec_tabs().len() < usize::MAX,
    ensures
        res.compile_options.includes@ == compile_options.includes@,
        res.file_sets@ == dedup(sidebar_pools(sidebar@) + tab_pools(body.spec_tabs())),
        res.services@.len() == sidebar@.len(),
        forall|i: int|
            0 <= i < sidebar@.len() ==> {
                let c = #[trigger] res.services@[i];
                let s = sidebar@[i];
                &&& names_service(c.idx, s.service, res.file_sets@)
                &&& c.expanded == s.expanded
                &&& c.options == s.options
            },
        res.body.tabs@.len() == body.spec_tabs().len(),
        forall|i: int|
            0 <= i < body.spec_tabs().len() ==> tab_saved(
                #[trigger] res.body.tabs@[i],
                body.spec_tabs()[i].state,
                res.file_sets@,
            ),
        match body.spec_selected() {
            Some(s) => res.body.selected matches Some(k) && k < body.spec_tabs().len()
                && body.spec_tabs()[k as int].id == s,
            None => res.body.selected is None,
        },
{
    let mut sets: Vec<u64> = Vec::new();
    let mut services: Vec<ServiceConfig> = Vec::new();
    let mut i: usize = 0;
    while i < sidebar.len()
        invariant
            i <= sidebar@.len(),
            sidebar@.len() + body.spec_tabs().len() < usize::MAX,
            sets@ == dedup(sidebar_pools(sidebar@).take(i as int)),
            sets@.len() <= i,
            services@.len() == i,
            forall|k: int|
                0 <= k < i ==> {
                    let c = #[trigger] services@[k];
                    let s = sidebar@[k];
                    &&& names_service(c.idx, s.service, sets@)
                    &&& c.expanded == s.expanded
                    &&& c.options == s.options
                },
        decreases sidebar@.len() - i,
    {
        let ghost before = sets@;
        proof {
            assert(sidebar_pools(sidebar@).take(i + 1).drop_last() =~= sidebar_pools(sidebar@).take(
                i as int,
            ));
            assert(sidebar_pools(sidebar@).take(i + 1).last() == sidebar@[i as int].service.pool);
            lemma_first_pos(sets@, sidebar@[i as int].service.pool);
            lemma_dedup_contains(sidebar_pools(sidebar@).take(i as int), sidebar@[i as int].service.pool);
        }
        let s = &sidebar[i];
        let file_set = get_or_insert_file_set(&mut sets, s.service.pool);
        services.push(
            ServiceConfig {
                idx: ServiceKey { file_set, service: s.service.full_name.clone() },
                expanded: s.expanded,
                options: s.options.duplicate(),
            },
        );
        proof {
            assert forall|k: int| 0 <= k < i + 1 implies {
                let c = #[trigger] services@[k];
                let s = sidebar@[k];
                &&& names_service(c.idx, s.service, sets@)
                &&& c.expanded == s.expanded
                &&& c.options == s.options
            } by {
                if k < i {
                    assert(before[services@[k].idx.file_set as int] == sets@[services@[k].idx.file_set as int]);
                }
            }
        }
        i = i + 1;
    }
    proof {
        assert(sidebar_pools(sidebar@).take(sidebar@.len() as int) =~= sidebar_pools(sidebar@));
        assert(sidebar_pools(sidebar@) + tab_pools(body.spec_tabs().take(0)) =~= sidebar_pools(sidebar@));
    }
    let tabs = body.tabs();
    let mut saved: Vec<TabConfig> = Vec::new();
    let mut j: usize = 0;
    while j < tabs.len()
        invariant
            j <= tabs@.len(),
            tabs@ == body.spec_tabs(),
            sidebar@.len() + tabs@.len() < usize::MAX,
            sets@ == dedup(sidebar_pools(sidebar@) + tab_pools(tabs@.take(j as int))),
            sets@.len() <= sidebar@.len() + j,
            saved@.len() == j,
            services@.len() == sidebar@.len(),
            forall|k: int|
                0 <= k < sidebar@.len() ==> {
                    let c = #[trigger] services@[k];
                    let s = sidebar@[k];
                    &&& names_service(c.idx, s.service, sets@)
                    &&& c.expanded == s.expanded
                    &&& c.options == s.options
                },
            forall|k: int| 0 <= k < j ==> tab_saved(#[trigger] saved@[k], tabs@[k].state, sets@),
        decreases tabs@.len() - j,
    {
        let ghost before = sets@;
        let ghost prefix = sidebar_pools(sidebar@) + tab_pools(tabs@.take(j as int));
        proof {
            assert(tabs@.take(j + 1).drop_last() =~= tabs@.take(j as int));
            assert(tabs@.take(j + 1).last() == tabs@[j as int]);
            if let Some(p) = tab_pool(tabs@[j as int].state) {
                let whole = sidebar_pools(sidebar@) + tab_pools(tabs@.take(j + 1));
                assert(whole.drop_last() =~= prefix);
                assert(whole.last() == p);
                lemma_dedup_contains(prefix, p);
            } else {
                assert(sidebar_pools(sidebar@) + tab_pools(tabs@.take(j + 1)) =~= prefix);
            }
        }
        let cfg = tab_to_config(&tabs[j].state, &mut sets);
        saved.push(cfg);
        proof {
            assert forall|k: int| 0 <= k < sidebar@.len() implies {
                let c = #[trigger] services@[k];
                let s = sidebar@[k];
                &&& names_service(c.idx, s.service, sets@)
                &&& c.expanded == s.expanded
                &&& c.options == s.options
            } by {
                assert(before[services@[k].idx.file_set as int] == sets@[services@[k].idx.file_set as int]);
            }
            assert forall|k: int| 0 <= k < j + 1 implies tab_saved(#[trigger] saved@[k], tabs@[k].state, sets@) by {
                if k < j {
                    lemma_tab_saved_grow(saved@[k], tabs@[k].state, before, sets@);
                }
            }
        }
        j = j + 1;
    }
    proof {
        assert(tabs@.take(tabs@.len() as int) =~= tabs@);
    }
    let selected = match body.selected_tab() {
        Some(s) => position(tabs, s),
        None => None,
    };
    AppConfig { file_sets: sets, services, body: BodyConfig { tabs: saved, selected }, compile_options: compile_options.duplicate() }
}

/// A saved tab stays the saved form of its tab when file sets are added.
proof fn lemma_tab_saved_grow(cfg: TabConfig, tab: TabState, sets: Seq<u64>, more: Seq<u64>)
    requires
        tab_saved(cfg, tab, sets),
        sets.len() <= more.len(),
        forall|i: int| 0 <= i < sets.len() ==> more[i] == sets[i],
    ensures
        tab_saved(cfg, tab, more),
{
}

/// The position of the tab with id `id` in `tabs`.
fn position(tabs: &[Tab], id: TabId) -> (res: Option<usize>)
    ensures
        match res {
            Some(k) => k < tabs@.len() && tabs@[k as int].id == id,
            None => forall|k: int| 0 <= k < tabs@.len() ==> tabs@[k].id != id,
        },
{
    let mut i: usize = 0;
    while i < tabs.len()
        invariant
            i <= tabs@.len(),
            forall|k: int| 0 <= k < i ==> tabs@[k].id != id,
        decreases tabs@.len() - i,
    {
        if tabs[i].id == id {
            return Some(i);
        }
        i = i + 1;
    }
    None
}

/// The position of the first service named `name`.
pub open spec fn find_service(services: Seq<ServiceModel>, name: Seq<char>) -> Option<int>
    decreases services.len(),
{
    if services.len() == 0 {
        None
    } else {
        match find_service(services.drop_last(), name) {
            Some(k) => Some(k),
            None => if services.last().service.full_name@ == name {
                Some(services.len() - 1)
            } else {
                None
            },
        }
    }
}

/// The service that `key` names among the loaded file sets.
pub open spec fn spec_get_service(sets: Seq<FileSetModel>, key: ServiceKey) -> Result<ServiceModel, ConfigError> {
    if key.file_set >= sets.len() {
        Err(ConfigError::InvalidFileSetIndex)
    } else {
        let services = sets[key.file_set as int].services@;
        match find_service(services, key.service@) {
            Some(k) => Ok(services[k]),
            None => Err(ConfigError::InvalidServiceIndex),
        }
    }
}

/// Where `find_service` points, and that nothing before it matches.
proof fn lemma_find_service(services: Seq<ServiceModel>, name: Seq<char>)
    ensures
        match find_service(services, name) {
            Some(k) => 0 <= k < services.len() && services[k].service.full_name@ == name
                && forall|j: int| 0 <= j < k ==> services[j].service.full_name@ != name,
            None => forall|j: int| 0 <= j < services.len() ==> services[j].service.full_name@ != name,
        },
    decreases services.len(),
{
    if services.len() > 0 {
        let init = services.drop_last();
        lemma_find_service(init, name);
        assert forall|j: int| 0 <= j < init.len() implies init[j] == services[j] by {}
    }
}

/// The service `key` names among the loaded file sets.
pub fn get_service<'a>(sets: &'a [FileSetModel], key: &ServiceKey) -> (res: Result<&'a ServiceModel, ConfigError>)
    ensures
        match res {
            Ok(s) => spec_get_service(sets@, *key) == Ok::<ServiceModel, ConfigError>(*s),
            Err(e) => spec_get_service(sets@, *key) == Err::<ServiceModel, ConfigError>(e),
        },
{
    if key.file_set >= sets.len() {
        return Err(ConfigError::InvalidFileSetIndex);
    }
    let services = &sets[key.file_set].services;
    proof {
        lemma_find_service(services@, key.service@);
    }
    let mut i: usize = 0;
    while i < services.len()
        invariant
            key.file_set < sets@.len(),
            services@ == sets@[key.file_set as int].services@,
            i <= services@.len(),
            forall|j: int| 0 <= j < i ==> services@[j].service.full_name@ != key.service@,
            match find_service(services@, key.service@) {
                Some(k) => 0 <= k < services@.len() && services@[k].service.full_name@ == key.service@
                    && forall|j: int| 0 <= j < k ==> services@[j].service.full_name@ != key.service@,
                None => forall|j: int| 0 <= j < services@.len() ==> services@[j].service.full_name@ != key.service@,
            },
        decreases services@.len() - i,
    {
        if services[i].service.full_name == key.service {
            proof {
                match find_service(services@, key.service@) {
                    Some(k) => {
                        if k < i {
                            assert(services@[k].service.full_name@ == key.service@);
                        } else if k > i {
                            assert(services@[i as int].service.full_name@ == key.service@);
                        }
                    },
                    None => {
                        assert(services@[i as int].service.full_name@ == key.service@);
                    },
                }
            }
            proof {
                assert(find_service(services@, key.service@) == Some(i as int));
                assert(services@ == sets@[key.file_set as int].services@);
            }
            return Ok(&services[i]);
        }
        i = i + 1;
    }
    Err(ConfigError::InvalidServiceIndex)
}

/// Two keys name the same service.
pub open spec fn same_key(a: ServiceKey, b: ServiceKey) -> bool {
    a.file_set == b.file_set && a.service@ == b.service@
}

/// The position of the first saved service that `key` names.
pub open spec fn find_config(services: Seq<ServiceConfig>, key: ServiceKey) -> Option<int> {
    if exists|k: int| 0 <= k < services.len() && same_key(services[k].idx, key) {
        Some(
            choose|k: int|
                0 <= k < services.len() && same_key(services[k].idx, key) && forall|j: int|
                    0 <= j < k ==> !same_key(services[j].idx, key),
        )
    } else {
        None
    }
}

/// The first saved service that `key` names.
fn find_service_config<'a>(services: &'a [ServiceConfig], key: &ServiceKey) -> (res: Option<&'a ServiceConfig>)
    ensures
        match find_config(services@, *key) {
            Some(k) => res matches Some(c) && *c == services@[k],
            None => res is None,
        },
{
    let mut i: usize = 0;
    while i < services.len()
        invariant
            i <= services@.len(),
            forall|j: int| 0 <= j < i ==> !same_key(services@[j].idx, *key),
        decreases services@.len() - i,
    {
        if services[i].idx.file_set == key.file_set && services[i].idx.service == key.service {
            proof {
                let k = choose|k: int|
                    0 <= k < services@.len() && same_key(services@[k].idx, *key) && forall|j: int|
                        0 <= j < k ==> !same_key(services@[j].idx, *key);
                assert(same_key(services@[i as int].idx, *key));
                if k < i {
                } else if k > i {
                }
                assert(k == i);
            }
            return Some(&services[i]);
        }
        i = i + 1;
    }
    None
}

/// Why a saved tab cannot be restored, if it cannot.
#[verifier::opaque]
pub open spec fn spec_tab_error(cfg: TabConfig, sets: Seq<FileSetModel>, services: Seq<ServiceConfig>) -> Option<ConfigError> {
    match cfg {
        TabConfig::Method { idx, method, .. } => match spec_get_service(sets, idx) {
            Err(e) => Some(e),
            Ok(s) => if method < s.methods@.len() {
                None
            } else {
                Some(ConfigError::InvalidMethodIndex)
            },
        },
        TabConfig::Options { idx } => match spec_get_service(sets, idx) {
            Err(e) => Some(e),
            Ok(_) => if find_config(services, idx) is Some {
                None
            } else {
                Some(ConfigError::OptionsTabWithoutService)
            },
        },
        _ => None,
    }
}

/// `tab` is what the saved tab `cfg` restores to, when it has no error.
#[verifier::opaque]
pub open spec fn tab_restored(
    cfg: TabConfig,
    tab: TabState,
    sets: Seq<FileSetModel>,
    services: Seq<ServiceConfig>,
    compile: CompileOptions,
) -> bool {
    match cfg {
        TabConfig::Method {
            idx,
            method,
            address,
            request,
            request_valid,
            request_metadata,
            stream,
            options,
        } => match tab {
            TabState::Method(t) => {
                &&& t.method == spec_get_service(sets, idx)->Ok_0.methods@[method as int]
                &&& t.address.wf()
                &&& t.address.spec_text() == address@
                &&& t.address.spec_request_state() == RequestState::NotStarted
                &&& t.request == request
                &&& t.request_valid == request_valid
                &&& t.request_metadata == request_metadata
                &&& t.stream == stream
                &&& t.service_options == options
            },
            _ => false,
        },
        TabConfig::Options { idx } => match tab {
            TabState::Options(t) => {
                &&& t.service == spec_get_service(sets, idx)->Ok_0.service
                &&& t.default_address.wf()
                &&& t.shows(services[find_config(services, idx)->Some_0].options)
            },
            _ => false,
        },
        TabConfig::Compile => tab matches TabState::Compile(o) && o.includes@ == compile.includes@,
        TabConfig::Reflection { options } => match tab {
            TabState::Reflection(t) => t.address.wf() && t.shows(options),
            _ => false,
        },
    }
}

/// Restores one saved tab.
fn tab_from_config(cfg: TabConfig, sets: &[FileSetModel], services: &[ServiceConfig], compile: &CompileOptions) -> (res: Result<TabState, ConfigError>)
    ensures
        match res {
            Ok(tab) => spec_tab_error(cfg, sets@, services@) is None && tab_restored(cfg, tab, sets@, services@, *compile),
            Err(e) => spec_tab_error(cfg, sets@, services@) == Some(e),
        },
{
    proof {
        reveal(spec_tab_error);
        reveal(tab_restored);
    }
    match cfg {
        TabConfig::Method {
            idx,
            method,
            address,
            request,
            request_valid,
            request_metadata,
            stream,
            options,
        } => {
            let service = get_service(sets, &idx)?;
            if method >= service.methods.len() {
                return Err(ConfigError::InvalidMethodIndex);
            }
            Ok(
                TabState::new_method(
                    service.methods[method].duplicate(),
                    address,
                    request,
                    request_valid,
                    request_metadata,
                    stream,
                    options,
                ),
            )
        },
        TabConfig::Options { idx } => {
            let service = get_service(sets, &idx)?;
            match find_service_config(services, &idx) {
                Some(c) => Ok(TabState::new_options(service.service.duplicate(), c.options.duplicate())),
                None => Err(ConfigError::OptionsTabWithoutService),
            }
        },
        TabConfig::Compile => Ok(TabState::new_compile(compile.duplicate())),
        TabConfig::Reflection { options } => Ok(TabState::new_reflection(options)),
    }
}

/// The saved tabs restore without error.
pub open spec fn tabs_restorable(tabs: Seq<TabConfig>, sets: Seq<FileSetModel>, services: Seq<ServiceConfig>) -> bool {
    forall|i: int| 0 <= i < tabs.len() ==> spec_tab_error(#[trigger] tabs[i], sets, services) is None
}

/// The error of the first saved tab that does not restore is `e`.
pub open spec fn first_tab_error(tabs: Seq<TabConfig>, sets: Seq<FileSetModel>, services: Seq<ServiceConfig>, e: ConfigError) -> bool {
    exists|k: int|
        0 <= k < tabs.len() && spec_tab_error(#[trigger] tabs[k], sets, services) == Some(e) && forall|j: int|
            0 <= j < k ==> spec_tab_error(#[trigger] tabs[j], sets, services) is None
}

impl BodyConfig {
    /// Restores the tabs, giving them the ids `first_id`, `first_id + 1`, and
    /// so on in their saved order, and selects the tab at the saved position
    /// if there is one; fails with the error of the first tab that names a
    /// service or method the loaded file sets lack.
    pub fn into_state(
        self,
        sets: &[FileSetModel],
        services: &[ServiceConfig],
        compile: &CompileOptions,
        first_id: TabId,
    ) -> (res: Result<State, ConfigError>)
        requires
            first_id + self.tabs@.len() < u64::MAX,
        ensures
            res is Ok <==> tabs_restorable(self.tabs@, sets@, services@),
            match res {
                Ok(state) => {
                    &&& state.wf()
                    &&& state.spec_tabs().len() == self.tabs@.len()
                    &&& forall|i: int|
                        0 <= i < self.tabs@.len() ==> (#[trigger] state.spec_tabs()[i]).id == first_id + i
                            && tab_restored(self.tabs@[i], state.spec_tabs()[i].state, sets@, services@, *compile)
                    &&& state.spec_selected() == match self.selected {
                        Some(k) => if k < self.tabs@.len() {
                            Some((first_id + k) as TabId)
                        } else {
                            None
                        },
                        None => None,
                    }
                },
                Err(e) => first_tab_error(self.tabs@, sets@, services@, e),
            },
    {
        let ghost all = self.tabs@;
        let n = self.tabs.len();
        let mut rest = self.tabs;
        let mut tabs: Vec<Tab> = Vec::new();
        let mut i: usize = 0;
        while i < n
            invariant
                all == self.tabs@,
                n == all.len(),
                first_id + n < u64::MAX,
                i <= n,
                rest@ == all.skip(i as int),
                tabs@.len() == i,
                forall|k: int| 0 <= k < i ==> (#[trigger] tabs@[k]).id == first_id + k && tab_restored(all[k], tabs@[k].state, sets@, services@, *compile),
                forall|k: int| 0 <= k < i ==> spec_tab_error(#[trigger] all[k], sets@, services@) is None,
            decreases n - i,
        {
            let cfg = rest.remove(0);
            proof {
                assert(cfg == all[i as int]);
                assert(rest@ =~= all.skip(i + 1));
            }
            match tab_from_config(cfg, sets, services, compile) {
                Ok(state) => {
                    tabs.push(Tab { id: first_id + i as u64, state });
                },
                Err(e) => {
                    proof {
                        assert(spec_tab_error(all[i as int], sets@, services@) == Some(e));
                        assert(!tabs_restorable(all, sets@, services@));
                    }
                    return Err(e);
                },
            }
            i = i + 1;
        }
        proof {
            assert(increasing(ids_of(tabs@)));
        }
        let selected = match self.selected {
            Some(k) => if k < n {
                Some(first_id + k as u64)
            } else {
                None
            },
            None => None,
        };
        proof {
            if let Some(s) = selected {
                assert(ids_of(tabs@)[(s - first_id) as int] == s);
            }
        }
        Ok(State::new(tabs, selected))
    }
}

/// Restores the window: first the sidebar's services, then the tabs; fails
/// with the first service or tab that names what the loaded file sets lack.
pub fn from_config(
    sets: &[FileSetModel],
    services: Vec<ServiceConfig>,
    body: BodyConfig,
    compile: &CompileOptions,
    first_id: TabId,
) -> (res: Result<(Vec<SidebarService>, State), ConfigError>)
    requires
        first_id + body.tabs@.len() < u64::MAX,
    ensures
        res is Ok <==> (forall|i: int| 0 <= i < services@.len() ==> spec_get_service(sets@, (#[trigger] services@[i]).idx) is Ok)
            && tabs_restorable(body.tabs@, sets@, services@),
        match res {
            Ok((sidebar, state)) => {
                &&& sidebar@.len() == services@.len()
                &&& forall|i: int|
                    0 <= i < services@.len() ==> {
                        let s = #[trigger] sidebar@[i];
                        let c = services@[i];
                        &&& s.service == spec_get_service(sets@, c.idx)->Ok_0.service
                        &&& s.expanded == c.expanded
                        &&& s.options == c.options
                    }
                &&& state.wf()
                &&& state.spec_tabs().len() == body.tabs@.len()
                &&& forall|i: int|
                    0 <= i < body.tabs@.len() ==> (#[trigger] state.spec_tabs()[i]).id == first_id + i
                        && tab_restored(body.tabs@[i], state.spec_tabs()[i].state, sets@, services@, *compile)
                &&& state.spec_selected() == match body.selected {
                    Some(k) => if k < body.tabs@.len() {
                        Some((first_id + k) as TabId)
                    } else {
                        None
                    },
                    None => None,
                }
            },
            Err(e) => {
                ||| exists|k: int|
                    0 <= k < services@.len() && spec_get_service(sets@, (#[trigger] services@[k]).idx)
                        == Err::<ServiceModel, ConfigError>(e) && forall|j: int|
                        0 <= j < k ==> spec_get_service(sets@, (#[trigger] services@[j]).idx) is Ok
                ||| (forall|i: int| 0 <= i < services@.len() ==> spec_get_service(sets@, (#[trigger] services@[i]).idx) is Ok)
                    && first_tab_error(body.tabs@, sets@, services@, e)
            },
        },
{
    let mut sidebar: Vec<SidebarService> = Vec::new();
    let mut i: usize = 0;
    while i < services.len()
        invariant
            i <= services@.len(),
            sidebar@.len() == i,
            forall|k: int| 0 <= k < i ==> spec_get_service(sets@, (#[trigger] services@[k]).idx) is Ok,
            forall|k: int|
                0 <= k < i ==> {
                    let s = #[trigger] sidebar@[k];
                    let c = services@[k];
                    &&& s.service == spec_get_service(sets@, c.idx)->Ok_0.service
                    &&& s.expanded == c.expanded
                    &&& s.options == c.options
                },
        decreases services@.len() - i,
    {
        let c = &services[i];
        match get_service(sets, &c.idx) {
            Ok(s) => {
                sidebar.push(
                    SidebarService {
                        service: s.service.duplicate(),
                        expanded: c.expanded,
                        options: c.options.duplicate(),
                    },
                );
            },
            Err(e) => {
                return Err(e);
            },
        }
        i = i + 1;
    }
    let state = body.into_state(sets, services.as_slice(), compile, first_id)?;
    Ok((sidebar, state))
}

/// The loaded file sets `sets`, one for each saved id in `ids`, describe
/// `service`: in each set saved under its id, the first service with its
/// full name is it.
pub open spec fn describes(sets: Seq<FileSetModel>, ids: Seq<u64>, service: ServiceRef) -> bool {
    &&& sets.len() == ids.len()
    &&& forall|j: int|
        0 <= j < ids.len() && ids[j] == service.pool ==> match find_service(
            (#[trigger] sets[j]).services@,
            service.full_name@,
        ) {
            Some(k) => sets[j].services@[k].service == service,
            None => false,
        }
}

/// The loaded file sets describe `method`: they describe its service, whose
/// methods have it at its index.
pub open spec fn describes_method(sets: Seq<FileSetModel>, ids: Seq<u64>, method: MethodRef) -> bool {
    &&& describes(sets, ids, method.service)
    &&& forall|j: int|
        0 <= j < ids.len() && ids[j] == method.service.pool ==> match find_service(
            (#[trigger] sets[j]).services@,
            method.service.full_name@,
        ) {
            Some(k) => method.index < sets[j].services@[k].methods@.len()
                && sets[j].services@[k].methods@[method.index as int] == method,
            None => false,
        }
}

/// A restored tab shows what `tab` showed: a method tab the same method,
/// address text, request, metadata rows, history and options; an options tab
/// the same service; a reflection tab the same certificate setting and, when
/// it was valid, the same address; the compiler tab stays itself.
pub open spec fn same_restored(restored: TabState, tab: TabState) -> bool {
    match tab {
        TabState::Method(m) => match restored {
            TabState::Method(r) => {
                &&& r.method == m.method
                &&& r.address.spec_text() == m.address.spec_text()
                &&& r.request == m.request
                &&& r.request_valid == m.request_valid
                &&& r.request_metadata.entries@ == m.request_metadata.entries@
                &&& r.stream.same(m.stream)
                &&& r.service_options == m.service_options
            },
            _ => false,
        },
        TabState::Options(o) => restored matches TabState::Options(r) && r.service == o.service,
        TabState::Compile(_) => restored is Compile,
        TabState::Reflection(t) => match restored {
            TabState::Reflection(r) => {
                &&& r.verify_certs == t.verify_certs
                &&& t.address.spec_is_valid() ==> r.address.spec_text() == t.address.spec_text()
            },
            _ => false,
        },
    }
}

/// What is saved of a tab restores, from file sets that describe its
/// service and method and from saved services that include an options tab's
/// service, to a tab that shows the same.
pub proof fn law_saved_tab_restores(
    cfg: TabConfig,
    tab: TabState,
    ids: Seq<u64>,
    sets: Seq<FileSetModel>,
    services: Seq<ServiceConfig>,
    compile: CompileOptions,
    restored: TabState,
)
    requires
        tab_saved(cfg, tab, ids),
        sets.len() == ids.len(),
        tab matches TabState::Method(m) ==> describes_method(sets, ids, m.method),
        tab matches TabState::Options(o) ==> describes(sets, ids, o.service),
        cfg matches TabConfig::Options { idx } ==> find_config(services, idx) is Some,
        tab_restored(cfg, restored, sets, services, compile),
    ensures
        spec_tab_error(cfg, sets, services) is None,
        same_restored(restored, tab),
{
    reveal(spec_tab_error);
    reveal(tab_restored);
    match tab {
        TabState::Method(m) => {
            let idx = cfg->Method_idx;
            let j = idx.file_set as int;
            assert(ids[j] == m.method.service.pool);
            assert(match find_service(sets[j].services@, m.method.service.full_name@) {
                Some(k) => sets[j].services@[k].service == m.method.service,
                None => false,
            });
        },
        TabState::Options(o) => {
            let idx = cfg->Options_idx;
            let j = idx.file_set as int;
            assert(ids[j] == o.service.pool);
            assert(match find_service(sets[j].services@, o.service.full_name@) {
                Some(k) => sets[j].services@[k].service == o.service,
                None => false,
            });
        },
        _ => {},
    }
}

/// The window saved by `to_config` and restored by `from_config`, from file
/// sets that describe its services and methods, shows what it showed: the
/// same services with the same expansion and options, in order; tabs that
/// show the same, in order; and the tab at the selected position selected.
/// Options tabs are of services the sidebar lists, as commands keep them.
pub proof fn law_saved_window_restores(
    sidebar: Seq<SidebarService>,
    body: State,
    saved_sets: Seq<u64>,
    saved_services: Seq<ServiceConfig>,
    saved_tabs: Seq<TabConfig>,
    saved_selected: Option<usize>,
    sets: Seq<FileSetModel>,
    compile: CompileOptions,
    first_id: TabId,
    sidebar2: Seq<SidebarService>,
    state2: State,
)
    requires
        body.wf(),
        saved_sets == dedup(sidebar_pools(sidebar) + tab_pools(body.spec_tabs())),
        saved_services.len() == sidebar.len(),
        forall|i: int|
            0 <= i < sidebar.len() ==> {
                let c = #[trigger] saved_services[i];
                &&& names_service(c.idx, sidebar[i].service, saved_sets)
                &&& c.expanded == sidebar[i].expanded
                &&& c.options == sidebar[i].options
            },
        saved_tabs.len() == body.spec_tabs().len(),
        forall|i: int|
            0 <= i < body.spec_tabs().len() ==> tab_saved(#[trigger] saved_tabs[i], body.spec_tabs()[i].state, saved_sets),
        match body.spec_selected() {
            Some(s) => saved_selected matches Some(k) && k < body.spec_tabs().len() && body.spec_tabs()[k as int].id == s,
            None => saved_selected is None,
        },
        sets.len() == saved_sets.len(),
        forall|i: int| 0 <= i < sidebar.len() ==> describes(sets, saved_sets, (#[trigger] sidebar[i]).service),
        forall|i: int|
            0 <= i < body.spec_tabs().len() ==> match (#[trigger] body.spec_tabs()[i]).state {
                TabState::Method(m) => describes_method(sets, saved_sets, m.method),
                TabState::Options(o) => describes(sets, saved_sets, o.service) && exists|j: int|
                    0 <= j < sidebar.len() && (#[trigger] sidebar[j]).service == o.service,
                _ => true,
            },
        sidebar2.len() == saved_services.len(),
        forall|i: int|
            0 <= i < saved_services.len() ==> {
                let s = #[trigger] sidebar2[i];
                let c = saved_services[i];
                &&& s.service == spec_get_service(sets, c.idx)->Ok_0.service
                &&& s.expanded == c.expanded
                &&& s.options == c.options
            },
        state2.spec_tabs().len() == saved_tabs.len(),
        forall|i: int|
            0 <= i < saved_tabs.len() ==> (#[trigger] state2.spec_tabs()[i]).id == first_id + i && tab_restored(
                saved_tabs[i],
                state2.spec_tabs()[i].state,
                sets,
                saved_services,
                compile,
            ),
        state2.spec_selected() == match saved_selected {
            Some(k) => if k < saved_tabs.len() {
                Some((first_id + k) as TabId)
            } else {
                None
            },
            None => None,
        },
    ensures
        sidebar2 == sidebar,
        state2.spec_tabs().len() == body.spec_tabs().len(),
        forall|i: int|
            0 <= i < body.spec_tabs().len() ==> same_restored(
                (#[trigger] state2.spec_tabs()[i]).state,
                body.spec_tabs()[i].state,
            ),
        match body.spec_selected() {
            Some(s) => exists|k: int|
                0 <= k < body.spec_tabs().len() && body.spec_tabs()[k].id == s && state2.spec_selected() == Some(
                    (#[trigger] state2.spec_tabs()[k]).id,
                ),
            None => state2.spec_selected() is None,
        },
{
    lemma_dedup_distinct(sidebar_pools(sidebar) + tab_pools(body.spec_tabs()));
    assert forall|i: int| 0 <= i < sidebar.len() implies sidebar2[i] == sidebar[i] by {
        let c = saved_services[i];
        let s = sidebar[i];
        let j = c.idx.file_set as int;
        assert(describes(sets, saved_sets, s.service));
        assert(saved_sets[j] == s.service.pool);
        assert(match find_service(sets[j].services@, s.service.full_name@) {
            Some(k) => sets[j].services@[k].service == s.service,
            None => false,
        });
    }
    assert(sidebar2 =~= sidebar);
    assert forall|i: int| 0 <= i < body.spec_tabs().len() implies same_restored(
        (#[trigger] state2.spec_tabs()[i]).state,
        body.spec_tabs()[i].state,
    ) by {
        let tab = body.spec_tabs()[i].state;
        let cfg = saved_tabs[i];
        if let TabState::Options(o) = tab {
            let idx = cfg->Options_idx;
            let j = choose|j: int| 0 <= j < sidebar.len() && (#[trigger] sidebar[j]).service == o.service;
            let cj = saved_services[j];
            assert(names_service(cj.idx, sidebar[j].service, saved_sets));
            assert(cj.idx.file_set == idx.file_set);
            assert(same_key(saved_services[j].idx, idx));
        }
        law_saved_tab_restores(cfg, tab, saved_sets, sets, saved_services, compile, state2.spec_tabs()[i].state);
    }
    if let Some(s) = body.spec_selected() {
        let k = saved_selected.unwrap() as int;
        assert(state2.spec_tabs()[k].id == first_id + k);
    }
}

} // verus!
