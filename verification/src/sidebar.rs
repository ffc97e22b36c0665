//! The services listed in the sidebar, each with its options.
use vstd::prelude::*;

use crate::pool::{load_services, pool_service_view, reflect_pool_services, PoolService};
use crate::compile::CompileOptions;
use crate::request::ServiceOptions;
use crate::tab::{is_same_service, same_service, MethodRef, ServiceRef};

verus! {

/// A service of the sidebar: whether it is expanded, and its options.
#[derive(Debug, Clone)]
pub struct SidebarService {
    pub service: ServiceRef,
    pub expanded: bool,
    pub options: ServiceOptions,
}

/// The services of the sidebar, in order, and the compiler options new
/// compiler tabs open with.
#[derive(Debug)]
pub struct ServiceListState {
    services: Vec<SidebarService>,
    compile_options: CompileOptions,
}

impl Default for ServiceOptions {
    /// No default address, and certificates are checked.
    fn default() -> (res: ServiceOptions)
        ensures
            res.default_address is None,
            res.verify_certs,
    {
        ServiceOptions { default_address: None, verify_certs: true }
    }
}

/// The position of the first service of the list that is `service`.
pub open spec fn first_service(services: Seq<SidebarService>, service: ServiceRef) -> Option<int>
    decreases services.len(),
{
    if services.len() == 0 {
        None
    } else {
        match first_service(services.drop_last(), service) {
            Some(k) => Some(k),
            None => if same_service(services.last().service, service) {
                Some(services.len() - 1)
            } else {
                None
            },
        }
    }
}

/// Where `first_service` points, and that nothing before it is the service.
pub proof fn lemma_first_service(services: Seq<SidebarService>, service: ServiceRef)
    ensures
        match first_service(services, service) {
            Some(k) => 0 <= k < services.len() && same_service(services[k].service, service) && forall|j: int|
                0 <= j < k ==> !same_service(services[j].service, service),
            None => forall|j: int| 0 <= j < services.len() ==> !same_service(services[j].service, service),
        },
    decreases services.len(),
{
    if services.len() > 0 {
        let init = services.drop_last();
        lemma_first_service(init, service);
        assert forall|j: int| 0 <= j < init.len() implies init[j] == services[j] by {}
    }
}

/// Lists with the same services in the same places have the first entry of
/// a service in the same place.
proof fn lemma_first_service_same(a: Seq<SidebarService>, b: Seq<SidebarService>, service: ServiceRef)
    requires
        a.len() == b.len(),
        forall|k: int| 0 <= k < a.len() ==> (#[trigger] a[k]).service == b[k].service,
    ensures
        first_service(a, service) == first_service(b, service),
    decreases a.len(),
{
    if a.len() > 0 {
        lemma_first_service_same(a.drop_last(), b.drop_last(), service);
        assert(a.last().service == b[b.len() - 1].service);
    }
}

/// The sidebar entries after `set_service_options`: the entries of `service`
/// have `options`, the others are unchanged.
pub open spec fn options_set(before: Seq<SidebarService>, after: Seq<SidebarService>, service: ServiceRef, options: ServiceOptions) -> bool {
    &&& after.len() == before.len()
    &&& forall|i: int|
        0 <= i < before.len() ==> {
            let a = #[trigger] after[i];
            let b = before[i];
            if same_service(b.service, service) {
                a == (SidebarService { options, ..b })
            } else {
                a == b
            }
        }
}

/// Options given to a listed service are the options found for it after.
pub proof fn law_set_then_get_options(
    before: Seq<SidebarService>,
    after: Seq<SidebarService>,
    service: ServiceRef,
    options: ServiceOptions,
)
    requires
        options_set(before, after, service, options),
    ensures
        first_service(after, service) == first_service(before, service),
        first_service(after, service) matches Some(k) ==> after[k].options == options,
{
    assert forall|k: int| 0 <= k < after.len() implies (#[trigger] after[k]).service == before[k].service by {}
    lemma_first_service_same(after, before, service);
    lemma_first_service(before, service);
}

impl ServiceListState {
    pub closed spec fn spec_services(&self) -> Seq<SidebarService> {
        self.services@
    }

    pub closed spec fn spec_compile_options(&self) -> CompileOptions {
        self.compile_options
    }

    /// A sidebar listing `services`, with `compile_options`.
    pub fn new(services: Vec<SidebarService>, compile_options: CompileOptions) -> (res: ServiceListState)
        ensures
            res.spec_services() == services@,
            res.spec_compile_options() == compile_options,
    {
        ServiceListState { services, compile_options }
    }

    /// The compiler options.
    pub fn compile_options(&self) -> (res: &CompileOptions)
        ensures
            *res == self.spec_compile_options(),
    {
        &self.compile_options
    }

    /// Replaces the compiler options; the services stay.
    pub fn set_compile_options(&mut self, options: CompileOptions)
        ensures
            final(self).spec_compile_options() == options,
            final(self).spec_services() == old(self).spec_services(),
    {
        self.compile_options = options;
    }

    /// The services, in order.
    pub fn services(&self) -> (res: &[SidebarService])
        ensures
            res@ == self.spec_services(),
    {
        self.services.as_slice()
    }

    /// Lists the services of a newly loaded file after the others, expanded
    /// and with the default options.
    pub fn add_services(&mut self, services: Vec<ServiceRef>)
        ensures
            final(self).spec_compile_options() == old(self).spec_compile_options(),
            final(self).spec_services().len() == old(self).spec_services().len() + services@.len(),
            final(self).spec_services().take(old(self).spec_services().len() as int)
                == old(self).spec_services(),
            forall|i: int|
                0 <= i < services@.len() ==> {
                    let s = #[trigger] final(self).spec_services()[old(self).spec_services().len() + i];
                    &&& s.service == services@[i]
                    &&& s.expanded
                    &&& s.options.default_address is None
                    &&& s.options.verify_certs
                },
    {
        let ghost start = self.services@;
        let mut rest = services;
        let ghost all = rest@;
        let n = rest.len();
        let mut i: usize = 0;
        while i < n
            invariant
                self.compile_options == old(self).compile_options,
                n == all.len(),
                i <= n,
                rest@ == all.skip(i as int),
                self.services@.len() == start.len() + i,
                self.services@.take(start.len() as int) == start,
                forall|k: int|
                    0 <= k < i ==> {
                        let s = #[trigger] self.services@[start.len() + k];
                        &&& s.service == all[k]
                        &&& s.expanded
                        &&& s.options.default_address is None
                        &&& s.options.verify_certs
                    },
            decreases n - i,
        {
            let service = rest.remove(0);
            proof {
                assert(service == all[i as int]);
                assert(rest@ =~= all.skip(i + 1));
            }
            let ghost before = self.services@;
            self.services.push(SidebarService { service, expanded: true, options: ServiceOptions::default() });
            proof {
                assert(self.services@.take(start.len() as int) =~= before.take(start.len() as int));
            }
            i = i + 1;
        }
    }

    /// Loads the descriptor set encoded in `bytes` as the set `pool` and
    /// lists its services after the others, expanded and with the default
    /// options, giving the loaded services back; where the set cannot be
    /// loaded the list is unchanged.
    pub fn add_from_bytes(&mut self, bytes: &[u8], pool: u64) -> (res: Result<Vec<PoolService>, String>)
        ensures
            final(self).spec_compile_options() == old(self).spec_compile_options(),
            match res {
                Ok(loaded) => {
                    &&& reflect_pool_services(bytes@) == Some(loaded@.map_values(|s: PoolService| pool_service_view(s)))
                    &&& final(self).spec_services().len() == old(self).spec_services().len() + loaded@.len()
                    &&& final(self).spec_services().take(old(self).spec_services().len() as int)
                        == old(self).spec_services()
                    &&& forall|i: int|
                        0 <= i < loaded@.len() ==> {
                            let s = #[trigger] final(self).spec_services()[old(self).spec_services().len() + i];
                            &&& s.service.pool == pool
                            &&& s.service.full_name@ == loaded@[i].full_name@
                            &&& s.service.name@ == loaded@[i].name@
                            &&& s.expanded
                            &&& s.options.default_address is None
                            &&& s.options.verify_certs
                        }
                },
                Err(_) => reflect_pool_services(bytes@) is None && final(self).spec_services()
                    == old(self).spec_services(),
            },
    {
        let loaded = match load_services(bytes) {
            Ok(loaded) => loaded,
            Err(e) => return Err(e),
        };
        let mut refs: Vec<ServiceRef> = Vec::new();
        let mut i: usize = 0;
        while i < loaded.len()
            invariant
                i <= loaded@.len(),
                refs@.len() == i,
                forall|k: int|
                    0 <= k < i ==> {
                        let r = #[trigger] refs@[k];
                        &&& r.pool == pool
                        &&& r.full_name@ == loaded@[k].full_name@
                        &&& r.name@ == loaded@[k].name@
                    },
            decreases loaded@.len() - i,
        {
            let r = loaded[i].service_ref(pool);
            refs.push(r);
            i = i + 1;
        }
        self.add_services(refs);
        Ok(loaded)
    }

    /// Lists `service` after the others, expanded, with `options`.
    pub fn add_service(&mut self, service: ServiceRef, options: ServiceOptions)
        ensures
            final(self).spec_compile_options() == old(self).spec_compile_options(),
            final(self).spec_services() == old(self).spec_services().push(
                SidebarService { service, expanded: true, options },
            ),
    {
        self.services.push(SidebarService { service, expanded: true, options });
    }

    /// Takes the service at `index` out of the list.
    pub fn remove_service(&mut self, index: usize) -> (res: SidebarService)
        requires
            index < old(self).spec_services().len(),
        ensures
            final(self).spec_compile_options() == old(self).spec_compile_options(),
            res == old(self).spec_services()[index as int],
            final(self).spec_services() == old(self).spec_services().remove(index as int),
    {
        self.services.remove(index)
    }

    /// The options of the first entry for `service`, if it is listed.
    pub fn get_service_options(&self, service: &ServiceRef) -> (res: Option<&ServiceOptions>)
        ensures
            match first_service(self.spec_services(), *service) {
                Some(k) => res matches Some(o) && *o == self.spec_services()[k].options,
                None => res is None,
            },
    {
        proof {
            lemma_first_service(self.services@, *service);
        }
        let mut i: usize = 0;
        while i < self.services.len()
            invariant
                i <= self.services@.len(),
                forall|j: int| 0 <= j < i ==> !same_service(self.services@[j].service, *service),
                match first_service(self.services@, *service) {
                    Some(k) => 0 <= k < self.services@.len() && same_service(self.services@[k].service, *service)
                        && forall|j: int| 0 <= j < k ==> !same_service(self.services@[j].service, *service),
                    None => forall|j: int| 0 <= j < self.services@.len() ==> !same_service(self.services@[j].service, *service),
                },
            decreases self.services@.len() - i,
        {
            if is_same_service(&self.services[i].service, service) {
                proof {
                    match first_service(self.services@, *service) {
                        Some(k) => {
                            if k < i {
                                assert(same_service(self.services@[k].service, *service));
                            } else if k > i {
                                assert(same_service(self.services@[i as int].service, *service));
                            }
                        },
                        None => {
                            assert(same_service(self.services@[i as int].service, *service));
                        },
                    }
                }
                return Some(&self.services[i].options);
            }
            i = i + 1;
        }
        None
    }

    /// Gives every entry for `service` the options `options`.
    pub fn set_service_options(&mut self, service: &ServiceRef, options: &ServiceOptions)
        ensures
            final(self).spec_compile_options() == old(self).spec_compile_options(),
            options_set(old(self).spec_services(), final(self).spec_services(), *service, *options),
    {
        let mut i: usize = 0;
        while i < self.services.len()
            invariant
                self.compile_options == old(self).compile_options,
                i <= self.services@.len(),
                self.services@.len() == old(self).spec_services().len(),
                forall|k: int|
                    0 <= k < self.services@.len() ==> {
                        let a = #[trigger] self.services@[k];
                        let b = old(self).spec_services()[k];
                        if k < i && same_service(b.service, *service) {
                            a == (SidebarService { options: *options, ..b })
                        } else {
                            a == b
                        }
                    },
            decreases self.services@.len() - i,
        {
            if is_same_service(&self.services[i].service, service) {
                let entry = SidebarService {
                    service: self.services[i].service.duplicate(),
                    expanded: self.services[i].expanded,
                    options: options.duplicate(),
                };
                self.services.set(i, entry);
            }
            i = i + 1;
        }
    }
}

impl SidebarService {
    /// Gives the service `options`.
    pub fn set_options(&mut self, options: ServiceOptions)
        ensures
            *final(self) == (SidebarService { options, ..*old(self) }),
    {
        self.options = options;
    }
}

/// The sidebar: its services, and the method selected in it.
#[derive(Debug)]
pub struct SidebarState {
    services: ServiceListState,
    selected: Option<MethodRef>,
}

impl SidebarState {
    pub closed spec fn spec_list(&self) -> ServiceListState {
        self.services
    }

    pub closed spec fn spec_selected(&self) -> Option<MethodRef> {
        self.selected
    }

    /// A sidebar with `services` and `selected` chosen.
    pub fn new(services: ServiceListState, selected: Option<MethodRef>) -> (res: SidebarState)
        ensures
            res.spec_list() == services,
            res.spec_selected() == selected,
    {
        SidebarState { services, selected }
    }

    /// The services.
    pub fn list_state(&self) -> (res: &ServiceListState)
        ensures
            *res == self.spec_list(),
    {
        &self.services
    }

    /// The selected method.
    pub fn selected_method(&self) -> (res: &Option<MethodRef>)
        ensures
            *res == self.spec_selected(),
    {
        &self.selected
    }

    /// The services, the selection dropped.
    pub fn into_list_state(self) -> (res: ServiceListState)
        ensures
            res == self.spec_list(),
    {
        self.services
    }
}

} // verus!
