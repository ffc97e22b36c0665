//! A set of descriptor files loaded the way the window loads it, with
//! prost-reflect: its services in order, each with its methods and their
//! kinds, and the references the tabs and the sidebar keep to them.
use vstd::prelude::*;

use crate::config::{FileSetModel, ServiceModel};
use crate::method_kind::MethodKind;
use crate::tab::{MethodRef, ServiceRef};

verus! {

/// The services of the descriptor pool that
/// `prost_reflect::DescriptorPool::decode` builds from the bytes, in the
/// pool's order: each with its full name, its name, and its methods' names
/// with whether the client and the server stream; nothing where decoding or
/// building the pool fails.
pub uninterp spec fn reflect_pool_services(bytes: Seq<u8>) -> Option<Seq<(Seq<char>, Seq<char>, Seq<(Seq<char>, bool, bool)>)>>;

/// A method of a loaded service: its name and kind.
#[derive(Debug, Clone)]
pub struct PoolMethod {
    pub name: String,
    pub kind: MethodKind,
}

/// A service of a loaded set: its full name, its name, and its methods in
/// order.
#[derive(Debug, Clone)]
pub struct PoolService {
    pub full_name: String,
    pub name: String,
    pub methods: Vec<PoolMethod>,
}

/// The view of a raw method: its name and flags.
pub open spec fn raw_method_view(m: (String, bool, bool)) -> (Seq<char>, bool, bool) {
    (m.0@, m.1, m.2)
}

/// The view of a raw service: its names and its methods.
pub open spec fn raw_service_view(s: (String, String, Vec<(String, bool, bool)>)) -> (Seq<char>, Seq<char>, Seq<(Seq<char>, bool, bool)>) {
    (s.0@, s.1@, s.2@.map_values(|m: (String, bool, bool)| raw_method_view(m)))
}

/// A loaded method seen as the pool describes it.
pub open spec fn pool_method_view(m: PoolMethod) -> (Seq<char>, bool, bool) {
    (m.name@, m.kind.spec_client_streaming(), m.kind.spec_server_streaming())
}

/// A loaded service seen as the pool describes it.
pub open spec fn pool_service_view(s: PoolService) -> (Seq<char>, Seq<char>, Seq<(Seq<char>, bool, bool)>) {
    (s.full_name@, s.name@, s.methods@.map_values(|m: PoolMethod| pool_method_view(m)))
}

/// Builds a `prost_reflect::DescriptorPool` from the encoded descriptor set
/// with `DescriptorPool::decode`, and lists its services with their full
/// names, names and methods (name, client streaming, server streaming).
/// Claims only that the list is the named result `reflect_pool_services` of
/// the bytes, and an error exactly where that has none; nothing of the
/// error's text.
#[verifier::external_body]
fn decode_pool(bytes: &[u8]) -> (res: Result<Vec<(String, String, Vec<(String, bool, bool)>)>, String>)
    ensures
        match res {
            Ok(services) => reflect_pool_services(bytes@) == Some(
                services@.map_values(|s: (String, String, Vec<(String, bool, bool)>)| raw_service_view(s)),
            ),
            Err(_) => reflect_pool_services(bytes@) is None,
        },
{
    let pool = prost_reflect::DescriptorPool::decode(bytes).map_err(|err| err.to_string())?;
    Ok(pool
        .services()
        .map(|s| {
            let methods = s.methods().map(|m| (m.name().to_owned(), m.is_client_streaming(), m.is_server_streaming()));
            (s.full_name().to_owned(), s.name().to_owned(), methods.collect())
        })
        .collect())
}

/// The method with the given name and flags.
fn method_of(raw: (String, bool, bool)) -> (res: PoolMethod)
    ensures
        pool_method_view(res) == raw_method_view(raw),
{
    let (name, client_streaming, server_streaming) = raw;
    PoolMethod { name, kind: MethodKind::from_streaming(client_streaming, server_streaming) }
}

/// The service with the given names and methods.
fn service_of(raw: (String, String, Vec<(String, bool, bool)>)) -> (res: PoolService)
    ensures
        pool_service_view(res) == raw_service_view(raw),
{
    let (full_name, name, raw_methods) = raw;
    let ghost all = raw_methods@;
    let mut rest = raw_methods;
    let n = rest.len();
    let mut methods: Vec<PoolMethod> = Vec::new();
    let mut i: usize = 0;
    while i < n
        invariant
            n == all.len(),
            i <= n,
            rest@ == all.skip(i as int),
            methods@.map_values(|m: PoolMethod| pool_method_view(m)) == all.take(i as int).map_values(
                |m: (String, bool, bool)| raw_method_view(m),
            ),
        decreases n - i,
    {
        let raw_method = rest.remove(0);
        proof {
            assert(raw_method == all[i as int]);
            assert(rest@ =~= all.skip(i + 1));
        }
        let ghost before = methods@;
        methods.push(method_of(raw_method));
        proof {
            assert(methods@.map_values(|m: PoolMethod| pool_method_view(m)) =~= before.map_values(
                |m: PoolMethod| pool_method_view(m),
            ).push(raw_method_view(all[i as int])));
            assert(all.take(i + 1).map_values(|m: (String, bool, bool)| raw_method_view(m)) =~= all.take(
                i as int,
            ).map_values(|m: (String, bool, bool)| raw_method_view(m)).push(raw_method_view(all[i as int])));
        }
        i = i + 1;
    }
    proof {
        assert(all.take(n as int) =~= all);
    }
    PoolService { full_name, name, methods }
}

/// Loads the services of the descriptor set encoded in `bytes`, as
/// prost-reflect builds its pool; fails exactly where it cannot.
pub fn load_services(bytes: &[u8]) -> (res: Result<Vec<PoolService>, String>)
    ensures
        match res {
            Ok(services) => reflect_pool_services(bytes@) == Some(
                services@.map_values(|s: PoolService| pool_service_view(s)),
            ),
            Err(_) => reflect_pool_services(bytes@) is None,
        },
{
    let raw = decode_pool(bytes)?;
    let ghost all = raw@;
    let mut rest = raw;
    let n = rest.len();
    let mut services: Vec<PoolService> = Vec::new();
    let mut i: usize = 0;
    while i < n
        invariant
            n == all.len(),
            i <= n,
            rest@ == all.skip(i as int),
            services@.map_values(|s: PoolService| pool_service_view(s)) == all.take(i as int).map_values(
                |s: (String, String, Vec<(String, bool, bool)>)| raw_service_view(s),
            ),
        decreases n - i,
    {
        let raw_service = rest.remove(0);
        proof {
            assert(raw_service == all[i as int]);
            assert(rest@ =~= all.skip(i + 1));
        }
        let ghost before = services@;
        services.push(service_of(raw_service));
        proof {
            assert(services@.map_values(|s: PoolService| pool_service_view(s)) =~= before.map_values(
                |s: PoolService| pool_service_view(s),
            ).push(raw_service_view(all[i as int])));
            assert(all.take(i + 1).map_values(|s: (String, String, Vec<(String, bool, bool)>)| raw_service_view(s))
                =~= all.take(i as int).map_values(
                |s: (String, String, Vec<(String, bool, bool)>)| raw_service_view(s),
            ).push(raw_service_view(all[i as int])));
        }
        i = i + 1;
    }
    proof {
        assert(all.take(n as int) =~= all);
    }
    Ok(services)
}

impl PoolService {
    /// The reference the tabs keep to this service of the set `pool`.
    pub fn service_ref(&self, pool: u64) -> (res: ServiceRef)
        ensures
            res.pool == pool,
            res.full_name@ == self.full_name@,
            res.name@ == self.name@,
    {
        ServiceRef { pool, full_name: self.full_name.clone(), name: self.name.clone() }
    }

    /// The reference the tabs keep to the method at `index` of this service
    /// of the set `pool`, if there is one.
    pub fn method_ref(&self, pool: u64, index: usize) -> (res: Option<MethodRef>)
        ensures
            match res {
                Some(m) => index < self.methods@.len() && refers_to_method(m, pool, *self, index as int),
                None => index >= self.methods@.len(),
            },
    {
        if index < self.methods.len() {
            let m = &self.methods[index];
            Some(MethodRef { service: self.service_ref(pool), index, name: m.name.clone(), kind: m.kind })
        } else {
            None
        }
    }
}

/// `m` is the reference to the method at `index` of `s` in the set `pool`.
pub open spec fn refers_to_method(m: MethodRef, pool: u64, s: PoolService, index: int) -> bool {
    &&& m.service.pool == pool
    &&& m.service.full_name@ == s.full_name@
    &&& m.service.name@ == s.name@
    &&& m.index == index
    &&& m.name@ == s.methods@[index].name@
    &&& m.kind == s.methods@[index].kind
}

/// `model` describes the service `s` of the set `pool`: its reference and
/// the references to each of its methods, in order.
pub open spec fn models_service(model: ServiceModel, pool: u64, s: PoolService) -> bool {
    &&& model.service.pool == pool
    &&& model.service.full_name@ == s.full_name@
    &&& model.service.name@ == s.name@
    &&& model.methods@.len() == s.methods@.len()
    &&& forall|j: int| 0 <= j < s.methods@.len() ==> refers_to_method(#[trigger] model.methods@[j], pool, s, j)
}

impl PoolService {
    /// The model of this service of the set `pool` that saved settings are
    /// restored against.
    pub fn model(&self, pool: u64) -> (res: ServiceModel)
        ensures
            models_service(res, pool, *self),
    {
        let mut methods: Vec<MethodRef> = Vec::new();
        let mut j: usize = 0;
        while j < self.methods.len()
            invariant
                j <= self.methods@.len(),
                methods@.len() == j,
                forall|k: int| 0 <= k < j ==> refers_to_method(#[trigger] methods@[k], pool, *self, k),
            decreases self.methods@.len() - j,
        {
            let m = &self.methods[j];
            methods.push(MethodRef { service: self.service_ref(pool), index: j, name: m.name.clone(), kind: m.kind });
            j = j + 1;
        }
        ServiceModel { service: self.service_ref(pool), methods }
    }
}

/// The model of the loaded set `pool` with `services`, in order.
pub fn file_set_model(pool: u64, services: &[PoolService]) -> (res: FileSetModel)
    ensures
        res.services@.len() == services@.len(),
        forall|i: int| 0 <= i < services@.len() ==> models_service(#[trigger] res.services@[i], pool, services@[i]),
{
    let mut out: Vec<ServiceModel> = Vec::new();
    let mut i: usize = 0;
    while i < services.len()
        invariant
            i <= services@.len(),
            out@.len() == i,
            forall|k: int| 0 <= k < i ==> models_service(#[trigger] out@[k], pool, services@[k]),
        decreases services@.len() - i,
    {
        out.push(services[i].model(pool));
        i = i + 1;
    }
    FileSetModel { services: out }
}

} // verus!
