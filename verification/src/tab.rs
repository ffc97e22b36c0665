use vstd::prelude::*;

use crate::compile::CompileOptions;
use crate::method_kind::MethodKind;
use crate::request::{AddressState, RequestState, ServiceOptions};
use crate::metadata::EditableState;
use crate::stream::StreamState;
use crate::text::push_str;

verus! {

/// A service as the tabs refer to it: the id of the set of descriptor files
/// it was loaded from, and its full and short names.
#[derive(Debug, Clone)]
pub struct ServiceRef {
    pub pool: u64,
    pub full_name: String,
    pub name: String,
}

/// A method of a service as the tabs refer to it: its service, its position
/// among the methods of the service, its name and kind.
#[derive(Debug, Clone)]
pub struct MethodRef {
    pub service: ServiceRef,
    pub index: usize,
    pub name: String,
    pub kind: MethodKind,
}

/// A tab in which requests to one method are edited and sent.
#[derive(Debug, Clone)]
pub struct MethodTabState {
    pub method: MethodRef,
    pub address: AddressState,
    pub request: String,
    pub request_valid: bool,
    pub request_metadata: EditableState,
    pub stream: StreamState,
    pub service_options: ServiceOptions,
}

/// A tab that edits the default options of a service.
#[derive(Debug, Clone)]
pub struct OptionsTabState {
    pub service: ServiceRef,
    pub default_address: AddressState,
    pub verify_certs: bool,
}

/// The tab that lists the services a server offers by reflection.
#[derive(Debug, Clone)]
pub struct ReflectionTabState {
    pub address: AddressState,
    pub verify_certs: bool,
    pub metadata_valid: bool,
    pub services: Option<Vec<String>>,
}

/// What a tab of the body shows.
#[derive(Debug, Clone)]
pub enum TabState {
    Method(MethodTabState),
    Options(OptionsTabState),
    Compile(CompileOptions),
    Reflection(ReflectionTabState),
}

/// Two services are the same when their full names are.
pub open spec fn same_service(a: ServiceRef, b: ServiceRef) -> bool {
    a.full_name@ == b.full_name@
}

/// Two methods are the same when their services and names are.
pub open spec fn same_method(a: MethodRef, b: MethodRef) -> bool {
    same_service(a.service, b.service) && a.name@ == b.name@
}

impl ServiceRef {
    /// A copy of this reference.
    pub fn duplicate(&self) -> (res: ServiceRef)
        ensures
            res == *self,
    {
        ServiceRef { pool: self.pool, full_name: self.full_name.clone(), name: self.name.clone() }
    }
}

impl MethodRef {
    /// A copy of this reference.
    pub fn duplicate(&self) -> (res: MethodRef)
        ensures
            res == *self,
    {
        MethodRef {
            service: self.service.duplicate(),
            index: self.index,
            name: self.name.clone(),
            kind: self.kind,
        }
    }
}

pub fn is_same_service(a: &ServiceRef, b: &ServiceRef) -> (res: bool)
    ensures
        res == same_service(*a, *b),
{
    a.full_name == b.full_name
}

pub fn is_same_method(a: &MethodRef, b: &MethodRef) -> (res: bool)
    ensures
        res == same_method(*a, *b),
{
    is_same_service(&a.service, &b.service) && a.name == b.name
}

impl MethodTabState {
    pub open spec fn spec_can_send(&self) -> bool {
        &&& self.address.spec_is_valid()
        &&& self.request_valid
        &&& match self.address.spec_request_state() {
            RequestState::Connected => true,
            RequestState::SendInProgress => self.method.kind.spec_client_streaming(),
            RequestState::AuthorizationHookFailed(_) => self.method.kind.spec_client_streaming(),
            _ => false,
        }
    }

    pub open spec fn spec_can_connect(&self) -> bool {
        self.address.spec_is_valid() && self.address.spec_request_state().spec_allows_connect()
    }

    pub open spec fn spec_can_finish(&self) -> bool {
        self.address.spec_request_state() is SendInProgress
            && self.method.kind.spec_client_streaming()
    }

    pub open spec fn spec_can_disconnect(&self) -> bool {
        self.address.spec_request_state().spec_allows_disconnect()
    }

    /// A new tab for `method` with the service's default address, the
    /// request text `request`, no metadata and an empty request history.
    pub fn empty(method: MethodRef, service_options: ServiceOptions, request: String, request_valid: bool) -> (res: Self)
        ensures
            res.address.wf(),
            res.method == method,
            res.address.spec_request_state() == RequestState::NotStarted,
            match service_options.default_address {
                Some(addr) => res.address.spec_text() == addr@,
                None => res.address.spec_text() == Seq::<char>::empty(),
            },
            res.request == request,
            res.request_valid == request_valid,
            res.request_metadata.entries@.len() == 0,
            res.stream.spec_items().len() == 0,
            res.service_options == service_options,
    {
        MethodTabState {
            address: AddressState::with_options(&service_options),
            method,
            request,
            request_valid,
            request_metadata: EditableState { entries: Vec::new() },
            stream: StreamState::new(),
            service_options,
        }
    }

    /// A tab for `method` restored from saved settings: its address text,
    /// request text, metadata rows, request history and options.
    pub fn new(
        method: MethodRef,
        address: String,
        request: String,
        request_valid: bool,
        request_metadata: EditableState,
        stream: StreamState,
        service_options: ServiceOptions,
    ) -> (res: Self)
        ensures
            res.address.wf(),
            res.address.spec_text() == address@,
            res.address.spec_request_state() == RequestState::NotStarted,
            res.method == method,
            res.request == request,
            res.request_valid == request_valid,
            res.request_metadata == request_metadata,
            res.stream == stream,
            res.service_options == service_options,
    {
        MethodTabState {
            address: AddressState::new(address),
            method,
            request,
            request_valid,
            request_metadata,
            stream,
            service_options,
        }
    }

    pub fn can_send(&self) -> (b: bool)
        ensures
            b == self.spec_can_send(),
    {
        self.address.is_valid() && self.request_valid && match self.address.request_state() {
            RequestState::NotStarted
            | RequestState::ConnectInProgress
            | RequestState::AuthorizationHookInProgress
            | RequestState::ConnectFailed(_) => false,
            RequestState::Connected => true,
            RequestState::SendInProgress | RequestState::AuthorizationHookFailed(_) => {
                self.method.kind.client_streaming()
            },
        }
    }

    pub fn can_connect(&self) -> (b: bool)
        ensures
            b == self.spec_can_connect(),
    {
        self.address.is_valid() && match self.address.request_state() {
            RequestState::NotStarted | RequestState::ConnectFailed(_) => true,
            RequestState::Connected
            | RequestState::ConnectInProgress
            | RequestState::AuthorizationHookInProgress
            | RequestState::SendInProgress
            | RequestState::AuthorizationHookFailed(_) => false,
        }
    }

    pub fn can_finish(&self) -> (b: bool)
        ensures
            b == self.spec_can_finish(),
    {
        match self.address.request_state() {
            RequestState::SendInProgress => self.method.kind.client_streaming(),
            _ => false,
        }
    }

    pub fn can_disconnect(&self) -> (b: bool)
        ensures
            b == self.spec_can_disconnect(),
    {
        match self.address.request_state() {
            RequestState::ConnectInProgress
            | RequestState::AuthorizationHookInProgress
            | RequestState::Connected
            | RequestState::SendInProgress
            | RequestState::AuthorizationHookFailed(_) => true,
            RequestState::NotStarted | RequestState::ConnectFailed(_) => false,
        }
    }

    /// Empties the request history of the tab.
    pub fn clear_request_history(&mut self)
        ensures
            final(self).stream.spec_items().len() == 0,
            final(self).stream.spec_request_count() == 0,
            final(self).stream.spec_response_count() == 0,
            final(self).method == old(self).method,
            final(self).address == old(self).address,
            final(self).request == old(self).request,
            final(self).request_valid == old(self).request_valid,
            final(self).request_metadata == old(self).request_metadata,
    {
        self.stream.clear();
    }

    pub fn set_service_options(&mut self, options: ServiceOptions)
        ensures
            final(self).service_options == options,
            final(self).method == old(self).method,
            final(self).address == old(self).address,
            final(self).request == old(self).request,
            final(self).request_valid == old(self).request_valid,
            final(self).request_metadata == old(self).request_metadata,
            final(self).stream == old(self).stream,
    {
        self.service_options = options;
    }
}

impl OptionsTabState {
    /// A fresh options tab for `options`: its address box holds their default
    /// address and is not connected, and it copies the certificate setting.
    pub open spec fn shows(&self, options: ServiceOptions) -> bool {
        &&& self.verify_certs == options.verify_certs
        &&& self.default_address.spec_request_state() == RequestState::NotStarted
        &&& match options.default_address {
            Some(addr) => self.default_address.spec_text() == addr@,
            None => self.default_address.spec_text() == Seq::<char>::empty(),
        }
    }

    pub open spec fn spec_can_connect(&self) -> bool {
        self.default_address.spec_is_valid()
            && self.default_address.spec_request_state().spec_allows_connect()
    }

    pub open spec fn spec_can_disconnect(&self) -> bool {
        match self.default_address.spec_request_state() {
            RequestState::ConnectInProgress => true,
            RequestState::Connected => true,
            RequestState::SendInProgress => true,
            _ => false,
        }
    }

    /// A new options tab showing the service's current options.
    pub fn new(service: ServiceRef, options: ServiceOptions) -> (res: Self)
        ensures
            res.default_address.wf(),
            res.service == service,
            res.verify_certs == options.verify_certs,
            res.default_address.spec_request_state() == RequestState::NotStarted,
            match options.default_address {
                Some(addr) => res.default_address.spec_text() == addr@,
                None => res.default_address.spec_text() == Seq::<char>::empty(),
            },
    {
        OptionsTabState {
            service,
            default_address: AddressState::with_options(&options),
            verify_certs: options.verify_certs,
        }
    }

    /// The label of the tab: the service's name followed by " options".
    pub fn label(&self) -> (s: String)
        ensures
            s@ == self.service.name@ + " options"@,
    {
        let mut s = self.service.name.clone();
        push_str(&mut s, " options");
        s
    }

    /// The options the tab currently shows: its address if that is valid.
    pub fn service_options(&self) -> (res: ServiceOptions)
        ensures
            res.verify_certs == self.verify_certs,
            self.default_address.spec_is_valid() ==> (res.default_address matches Some(a) && a@
                == self.default_address.spec_text()),
            !self.default_address.spec_is_valid() ==> res.default_address is None,
    {
        let default_address = if self.default_address.is_valid() {
            Some(self.default_address.text().to_owned())
        } else {
            None
        };
        ServiceOptions { default_address, verify_certs: self.verify_certs }
    }

    /// Takes over new options: a given default address replaces the text of
    /// the address box, and the certificate setting is copied.
    pub fn set_service_options(&mut self, options: ServiceOptions)
        ensures
            final(self).service == old(self).service,
            final(self).verify_certs == options.verify_certs,
            match options.default_address {
                Some(addr) => final(self).default_address.wf() && final(self).default_address.spec_text()
                    == addr@,
                None => final(self).default_address == old(self).default_address,
            },
    {
        if let Some(addr) = options.default_address {
            self.default_address.set_uri(addr);
        }
        self.verify_certs = options.verify_certs;
    }

    pub fn can_connect(&self) -> (b: bool)
        ensures
            b == self.spec_can_connect(),
    {
        self.default_address.is_valid() && match self.default_address.request_state() {
            RequestState::NotStarted | RequestState::ConnectFailed(_) => true,
            _ => false,
        }
    }

    pub fn can_disconnect(&self) -> (b: bool)
        ensures
            b == self.spec_can_disconnect(),
    {
        match self.default_address.request_state() {
            RequestState::ConnectInProgress | RequestState::Connected | RequestState::SendInProgress => true,
            _ => false,
        }
    }
}

impl ReflectionTabState {
    /// A fresh reflection tab for `options`: its address box holds their
    /// default address and is not connected, it copies the certificate
    /// setting, and lists no services yet.
    pub open spec fn shows(&self, options: ServiceOptions) -> bool {
        &&& self.verify_certs == options.verify_certs
        &&& self.metadata_valid
        &&& self.services is None
        &&& self.address.spec_request_state() == RequestState::NotStarted
        &&& match options.default_address {
            Some(addr) => self.address.spec_text() == addr@,
            None => self.address.spec_text() == Seq::<char>::empty(),
        }
    }

    pub open spec fn spec_can_send(&self) -> bool {
        self.address.spec_is_valid() && self.metadata_valid
    }

    /// A new reflection tab with the given default options and no services
    /// listed yet.
    pub fn new(options: ServiceOptions) -> (res: Self)
        ensures
            res.address.wf(),
            res.verify_certs == options.verify_certs,
            res.metadata_valid,
            res.services is None,
            res.address.spec_request_state() == RequestState::NotStarted,
            match options.default_address {
                Some(addr) => res.address.spec_text() == addr@,
                None => res.address.spec_text() == Seq::<char>::empty(),
            },
    {
        ReflectionTabState {
            address: AddressState::with_options(&options),
            verify_certs: options.verify_certs,
            metadata_valid: true,
            services: None,
        }
    }

    pub fn can_send(&self) -> (b: bool)
        ensures
            b == self.spec_can_send(),
    {
        self.address.is_valid() && self.metadata_valid
    }

    /// The options the tab currently shows: its address if that is valid.
    pub fn service_options(&self) -> (res: ServiceOptions)
        ensures
            res.verify_certs == self.verify_certs,
            self.address.spec_is_valid() ==> (res.default_address matches Some(a) && a@
                == self.address.spec_text()),
            !self.address.spec_is_valid() ==> res.default_address is None,
    {
        let default_address = if self.address.is_valid() {
            Some(self.address.text().to_owned())
        } else {
            None
        };
        ServiceOptions { default_address, verify_certs: self.verify_certs }
    }
}

impl TabState {
    pub open spec fn spec_can_connect(&self) -> bool {
        match self {
            TabState::Method(tab) => tab.spec_can_connect(),
            TabState::Options(tab) => tab.spec_can_connect(),
            _ => false,
        }
    }

    pub open spec fn spec_can_send(&self) -> bool {
        match self {
            TabState::Method(tab) => tab.spec_can_send(),
            TabState::Reflection(tab) => tab.spec_can_send(),
            _ => false,
        }
    }

    pub open spec fn spec_can_finish(&self) -> bool {
        match self {
            TabState::Method(tab) => tab.spec_can_finish(),
            _ => false,
        }
    }

    pub open spec fn spec_can_disconnect(&self) -> bool {
        match self {
            TabState::Method(tab) => tab.spec_can_disconnect(),
            TabState::Options(tab) => tab.spec_can_disconnect(),
            _ => false,
        }
    }

    pub open spec fn spec_label(&self) -> Seq<char> {
        match self {
            TabState::Method(tab) => tab.method.name@,
            TabState::Options(tab) => tab.service.name@ + " options"@,
            TabState::Compile(_) => "Compiler options"@,
            TabState::Reflection(_) => "Server reflection"@,
        }
    }

    pub fn can_connect(&self) -> (b: bool)
        ensures
            b == self.spec_can_connect(),
    {
        match self {
            TabState::Method(tab) => tab.can_connect(),
            TabState::Options(tab) => tab.can_connect(),
            TabState::Compile(_) => false,
            TabState::Reflection(_) => false,
        }
    }

    pub fn can_send(&self) -> (b: bool)
        ensures
            b == self.spec_can_send(),
    {
        match self {
            TabState::Method(tab) => tab.can_send(),
            TabState::Options(_) => false,
            TabState::Compile(_) => false,
            TabState::Reflection(tab) => tab.can_send(),
        }
    }

    pub fn can_finish(&self) -> (b: bool)
        ensures
            b == self.spec_can_finish(),
    {
        match self {
            TabState::Method(tab) => tab.can_finish(),
            _ => false,
        }
    }

    pub fn can_disconnect(&self) -> (b: bool)
        ensures
            b == self.spec_can_disconnect(),
    {
        match self {
            TabState::Method(tab) => tab.can_disconnect(),
            TabState::Options(tab) => tab.can_disconnect(),
            TabState::Compile(_) => false,
            TabState::Reflection(_) => false,
        }
    }

    /// The text on the tab's label.
    pub fn label(&self) -> (s: String)
        ensures
            s@ == self.spec_label(),
    {
        match self {
            TabState::Method(tab) => tab.method.name.clone(),
            TabState::Options(tab) => tab.label(),
            TabState::Compile(_) => "Compiler options".to_owned(),
            TabState::Reflection(_) => "Server reflection".to_owned(),
        }
    }

    pub fn new_method(
        method: MethodRef,
        address: String,
        request: String,
        request_valid: bool,
        request_metadata: EditableState,
        stream: StreamState,
        service_options: ServiceOptions,
    ) -> (res: TabState)
        ensures
            res matches TabState::Method(t) && t.method == method && t.address.wf()
                && t.address.spec_text() == address@ && t.address.spec_request_state()
                == RequestState::NotStarted && t.request == request && t.request_valid
                == request_valid && t.request_metadata == request_metadata && t.stream == stream
                && t.service_options == service_options,
    {
        TabState::Method(
            MethodTabState::new(
                method,
                address,
                request,
                request_valid,
                request_metadata,
                stream,
                service_options,
            ),
        )
    }

    pub fn new_options(service: ServiceRef, options: ServiceOptions) -> (res: TabState)
        ensures
            res matches TabState::Options(t) && t.service == service && t.default_address.wf()
                && t.shows(options),
    {
        TabState::Options(OptionsTabState::new(service, options))
    }

    pub fn new_reflection(options: ServiceOptions) -> (res: TabState)
        ensures
            res matches TabState::Reflection(t) && t.verify_certs == options.verify_certs
                && t.address.wf() && t.shows(options),
    {
        TabState::Reflection(ReflectionTabState::new(options))
    }

    pub fn empty_reflection() -> (res: TabState)
        ensures
            res matches TabState::Reflection(t) && t.verify_certs && t.address.wf()
                && t.address.spec_text() == Seq::<char>::empty(),
    {
        TabState::Reflection(ReflectionTabState::new(ServiceOptions { default_address: None, verify_certs: true }))
    }

    /// The compiler options tab, showing `options`.
    pub fn new_compile(options: CompileOptions) -> (res: TabState)
        ensures
            res == TabState::Compile(options),
    {
        TabState::Compile(options)
    }
}

} // verus!
