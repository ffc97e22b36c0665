//! A set of descriptor files as the sidebar loads it: its services, in the
//! order of the files and of the services in each file, and their methods.
use vstd::prelude::*;
use vstd::slice::slice_to_vec;

verus! {

/// The services of each file of the descriptor set that prost decodes from
/// the bytes, each with its method names, or nothing when decoding fails.
pub uninterp spec fn prost_file_services(bytes: Seq<u8>) -> Option<Seq<Seq<(Seq<char>, Seq<Seq<char>>)>>>;

/// A method of a loaded service.
#[derive(Debug, Clone)]
pub struct Method {
    pub name: String,
}

/// A service of a loaded set: its name and its methods, in order.
#[derive(Debug, Clone)]
pub struct Service {
    pub name: String,
    pub methods: Vec<Method>,
}

/// A loaded set of descriptor files.
#[derive(Debug)]
pub struct FileSet {
    bytes: Vec<u8>,
    services: Vec<Service>,
}

/// Why a set of descriptor files could not be loaded.
#[derive(Debug)]
pub struct FileSetError {
    pub source: prost::DecodeError,
}

/// The texts of the services of one file, with their method names.
pub open spec fn file_view(services: Seq<(String, Vec<String>)>) -> Seq<(Seq<char>, Seq<Seq<char>>)> {
    services.map_values(|s: (String, Vec<String>)| (s.0@, s.1@.map_values(|m: String| m@)))
}

/// Decodes a `prost_types::FileDescriptorSet` from `bytes` with
/// `prost::Message::decode`, and lists the services of each file with the
/// names of their methods. Claims only that the lists are the named result
/// `prost_file_services` of the bytes.
#[verifier::external_body]
fn decode_file_set(bytes: &[u8]) -> (res: Result<Vec<Vec<(String, Vec<String>)>>, prost::DecodeError>)
    ensures
        match res {
            Ok(files) => prost_file_services(bytes@) == Some(files@.map_values(
                |f: Vec<(String, Vec<String>)>| file_view(f@),
            )),
            Err(_) => prost_file_services(bytes@) is None,
        },
{
    let raw = <prost_types::FileDescriptorSet as prost::Message>::decode(bytes)?;
    Ok(raw
        .file
        .iter()
        .map(|f| f.service.iter().map(|s| (s.name().to_owned(), s.method.iter().map(|m| m.name().to_owned()).collect())).collect())
        .collect())
}

/// Decodes the set from bytes that decode (`prost::Message::decode`) and
/// encodes the decoded set again with `prost::Message::encode_to_vec`.
/// Claims what prost's generated encoding and decoding of the set's fields
/// show: the new bytes decode to a set with the same files, so the same
/// services with the same methods. Nesting is no deeper than in the bytes
/// that decoded, so prost's recursion limit is not reached.
#[verifier::external_body]
fn reencode_file_set(bytes: &[u8]) -> (res: Vec<u8>)
    requires
        prost_file_services(bytes@) is Some,
    ensures
        prost_file_services(res@) == prost_file_services(bytes@),
{
    match <prost_types::FileDescriptorSet as prost::Message>::decode(bytes) {
        Ok(raw) => prost::Message::encode_to_vec(&raw),
        Err(_) => Vec::new(),
    }
}

/// The services of all files, in order.
pub open spec fn all_services(files: Seq<Seq<(Seq<char>, Seq<Seq<char>>)>>) -> Seq<(Seq<char>, Seq<Seq<char>>)>
    decreases files.len(),
{
    if files.len() == 0 {
        Seq::empty()
    } else {
        all_services(files.drop_last()) + files.last()
    }
}

/// A service as the contracts speak of it: its name and method names.
pub open spec fn service_view(s: Service) -> (Seq<char>, Seq<Seq<char>>) {
    (s.name@, s.methods@.map_values(|m: Method| m.name@))
}

impl Method {
    /// The method's name.
    pub fn name(&self) -> (res: &str)
        ensures
            res@ == self.name@,
    {
        self.name.as_str()
    }
}

impl Service {
    /// The service's name.
    pub fn name(&self) -> (res: &str)
        ensures
            res@ == self.name@,
    {
        self.name.as_str()
    }

    /// The service named `name` with methods named `methods`, in order.
    pub fn from_raw(name: String, methods: Vec<String>) -> (res: Service)
        ensures
            service_view(res) == (name@, methods@.map_values(|m: String| m@)),
    {
        let mut out: Vec<Method> = Vec::new();
        let n = methods.len();
        let mut i: usize = 0;
        while i < n
            invariant
                n == methods@.len(),
                i <= n,
                out@.map_values(|m: Method| m.name@) == methods@.take(i as int).map_values(|m: String| m@),
            decreases n - i,
        {
            let ghost before = out@;
            out.push(Method { name: methods[i].clone() });
            proof {
                assert(out@.map_values(|m: Method| m.name@) =~= before.map_values(|m: Method| m.name@).push(
                    methods@[i as int]@,
                ));
                assert(methods@.take(i + 1).map_values(|m: String| m@) =~= methods@.take(i as int).map_values(
                    |m: String| m@,
                ).push(methods@[i as int]@));
            }
            i = i + 1;
        }
        proof {
            assert(methods@.take(n as int) =~= methods@);
        }
        Service { name, methods: out }
    }

    /// The method at `index`, if there is one.
    pub fn get_method(&self, index: usize) -> (res: Option<&Method>)
        ensures
            match res {
                Some(m) => index < self.methods@.len() && *m == self.methods@[index as int],
                None => index >= self.methods@.len(),
            },
    {
        if index < self.methods.len() {
            Some(&self.methods[index])
        } else {
            None
        }
    }

    /// The methods, in order.
    pub fn methods(&self) -> (res: &[Method])
        ensures
            res@ == self.methods@,
    {
        self.methods.as_slice()
    }
}

impl FileSet {
    pub closed spec fn spec_services(&self) -> Seq<Service> {
        self.services@
    }

    /// The services listed are those of the bytes the set was loaded from.
    #[verifier::type_invariant]
    closed spec fn holds_listed(&self) -> bool {
        prost_file_services(self.bytes@) matches Some(files) && self.services@.map_values(
            |s: Service| service_view(s),
        ) == all_services(files)
    }

    /// Loads a set of descriptor files from its encoded form: the services of
    /// every file, in order; fails where prost cannot decode the set.
    pub fn from_bytes(bytes: &[u8]) -> (res: Result<FileSet, FileSetError>)
        ensures
            match res {
                Ok(set) => prost_file_services(bytes@) matches Some(files)
                    && set.spec_services().map_values(|s: Service| service_view(s)) == all_services(files),
                Err(_) => prost_file_services(bytes@) is None,
            },
    {
        match decode_file_set(bytes) {
            Ok(files) => {
                let services = Self::from_raw(files);
                Ok(FileSet { bytes: slice_to_vec(bytes), services })
            },
            Err(source) => Err(FileSetError { source }),
        }
    }

    /// The services of the files, in order.
    fn from_raw(files: Vec<Vec<(String, Vec<String>)>>) -> (res: Vec<Service>)
        ensures
            res@.map_values(|s: Service| service_view(s)) == all_services(
                files@.map_values(|f: Vec<(String, Vec<String>)>| file_view(f@)),
            ),
    {
        let ghost view = files@.map_values(|f: Vec<(String, Vec<String>)>| file_view(f@));
        let mut out: Vec<Service> = Vec::new();
        let n = files.len();
        let mut rest = files;
        let mut i: usize = 0;
        while i < n
            invariant
                n == view.len(),
                i <= n,
                rest@.len() == n - i,
                forall|k: int| 0 <= k < n - i ==> file_view((#[trigger] rest@[k])@) == view[i + k],
                out@.map_values(|s: Service| service_view(s)) == all_services(view.take(i as int)),
            decreases n - i,
        {
            let ghost prev = rest@;
            let file = rest.remove(0);
            proof {
                assert(file_view(file@) == view[i as int]);
                assert forall|k: int| 0 <= k < n - i - 1 implies file_view((#[trigger] rest@[k])@) == view[i + 1 + k] by {
                    assert(rest@[k] == prev[k + 1]);
                }
            }
            let ghost before = out@.map_values(|s: Service| service_view(s));
            let mut services = file;
            let m = services.len();
            let mut j: usize = 0;
            let ghost fv = view[i as int];
            while j < m
                invariant
                    m == fv.len(),
                    j <= m,
                    services@.len() == m - j,
                    forall|k: int| 0 <= k < m - j ==> {
                        let s = #[trigger] services@[k];
                        (s.0@, s.1@.map_values(|x: String| x@)) == fv[j + k]
                    },
                    out@.map_values(|s: Service| service_view(s)) == before + fv.take(j as int),
                decreases m - j,
            {
                let ghost prev_s = services@;
                let (name, methods) = services.remove(0);
                proof {
                    assert((name, methods) == prev_s[0]);
                    assert forall|k: int| 0 <= k < m - j - 1 implies {
                        let s = #[trigger] services@[k];
                        (s.0@, s.1@.map_values(|x: String| x@)) == fv[j + 1 + k]
                    } by {
                        assert(services@[k] == prev_s[k + 1]);
                    }
                }
                let s = Service::from_raw(name, methods);
                let ghost out_before = out@;
                out.push(s);
                proof {
                    assert(service_view(s) == fv[j as int]);
                    assert(out@.map_values(|s: Service| service_view(s)) =~= out_before.map_values(
                        |s: Service| service_view(s),
                    ).push(service_view(s)));
                    assert(fv.take(j + 1) =~= fv.take(j as int).push(fv[j as int]));
                    assert(out@.map_values(|s: Service| service_view(s)) =~= before + fv.take(j + 1));
                }
                j = j + 1;
            }
            proof {
                assert(fv.take(m as int) =~= fv);
                assert(view.take(i + 1).drop_last() =~= view.take(i as int));
            }
            i = i + 1;
        }
        proof {
            assert(view.take(n as int) =~= view);
        }
        out
    }

    /// The encoded form of the set, as prost encodes it: bytes that load
    /// back to the same services.
    pub fn to_bytes(&self) -> (res: Vec<u8>)
        ensures
            prost_file_services(res@) matches Some(files) && self.spec_services().map_values(
                |s: Service| service_view(s),
            ) == all_services(files),
    {
        proof {
            use_type_invariant(self);
        }
        reencode_file_set(self.bytes.as_slice())
    }

    /// The services, in order.
    pub fn services(&self) -> (res: &[Service])
        ensures
            res@ == self.spec_services(),
    {
        self.services.as_slice()
    }

    /// The service at `index`, if there is one.
    pub fn get_service(&self, index: usize) -> (res: Option<&Service>)
        ensures
            match res {
                Some(s) => index < self.spec_services().len() && *s == self.spec_services()[index as int],
                None => index >= self.spec_services().len(),
            },
    {
        if index < self.services.len() {
            Some(&self.services[index])
        } else {
            None
        }
    }
}

} // verus!
