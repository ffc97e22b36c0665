//! The state of the window and what each command of the menus and the
//! sidebar does to it.
use vstd::prelude::*;

use crate::body::{
    post_clear_request_history, post_close_selected_tab, post_create_method_tab, post_remove_service,
    post_select_next_tab, post_select_or_create_compiler_tab, post_select_or_create_method_tab,
    post_select_or_create_options_tab, post_select_or_create_reflection_tab, post_select_prev_tab,
    post_set_service_options, State,
};
use crate::compile::CompileOptions;
use crate::error::{fmt_err, join_causes, texts};
use crate::request::ServiceOptions;
use crate::sidebar::{first_service, options_set, ServiceListState, SidebarService};
use crate::tab::{MethodRef, ServiceRef};
use crate::text::push_str;

verus! {

/// The window: the sidebar's services, the body's tabs and the error shown
/// at the top, if any.
#[derive(Debug)]
pub struct AppState {
    pub sidebar: ServiceListState,
    pub body: State,
    pub error: Option<String>,
}

/// The commands the window handles.
#[derive(Debug)]
pub enum AppCommand {
    /// A file of descriptors was loaded: its services, or the texts of the
    /// error and its causes.
    FileLoaded(Result<Vec<ServiceRef>, Vec<String>>),
    CloseSelectedTab,
    SelectNextTab,
    SelectPrevTab,
    ClearRequestHistory,
    /// Select the compiler options tab, opening one with the sidebar's
    /// compiler options if there is none.
    SelectOrCreateCompileTab,
    SelectOrCreateReflectionTab,
    /// New compiler options, kept by the sidebar for compiler tabs opened
    /// later.
    SetCompileOptions(CompileOptions),
    SetServiceOptions(ServiceRef, ServiceOptions),
    SelectOrCreateOptionsTab(ServiceRef, ServiceOptions),
    /// Show a method; a new tab starts from the request text given.
    SelectOrCreateMethodTab { method: MethodRef, request: String, request_valid: bool },
    AddService(ServiceRef, ServiceOptions),
    RemoveService(usize),
    /// Open a new tab for a method, starting from the request text given.
    CreateTab { method: MethodRef, request: String, request_valid: bool },
}

/// The text shown when a file could not be loaded.
pub open spec fn load_error_text(causes: Seq<String>) -> Seq<char> {
    "Error loading file: "@ + join_causes(texts(causes), Seq::empty())
}

impl AppState {
    /// The window is consistent when its body is.
    pub open spec fn wf(&self) -> bool {
        self.body.wf()
    }

    /// Whether a command may be given in this state: a new tab needs an id,
    /// and a removed service must be listed.
    pub open spec fn accepts(&self, cmd: AppCommand) -> bool {
        match cmd {
            AppCommand::SelectOrCreateCompileTab
            | AppCommand::SelectOrCreateReflectionTab
            | AppCommand::SelectOrCreateOptionsTab(..)
            | AppCommand::SelectOrCreateMethodTab { .. }
            | AppCommand::CreateTab { .. } => self.body.can_open_tab(),
            AppCommand::RemoveService(i) => i < self.sidebar.spec_services().len(),
            _ => true,
        }
    }

    /// Carries out a command. Commands on tabs act on the body; a loaded file
    /// adds its services to the sidebar and clears the error, or shows why it
    /// failed; new options go to both the sidebar and the tabs of the service;
    /// a method tab is opened with the options the sidebar has for its
    /// service, and not at all when the service is not listed; a removed
    /// service takes its tabs with it.
    pub fn apply(&mut self, cmd: AppCommand)
        requires
            old(self).wf(),
            old(self).accepts(cmd),
        ensures
            final(self).wf(),
            match cmd {
                AppCommand::FileLoaded(Ok(services)) => {
                    &&& final(self).body == old(self).body
                    &&& final(self).error is None
                    &&& final(self).sidebar.spec_services().take(old(self).sidebar.spec_services().len() as int)
                        == old(self).sidebar.spec_services()
                    &&& final(self).sidebar.spec_services().len() == old(self).sidebar.spec_services().len()
                        + services@.len()
                    &&& forall|i: int|
                        0 <= i < services@.len() ==> {
                            let s = #[trigger] final(self).sidebar.spec_services()[old(self).sidebar.spec_services().len() + i];
                            &&& s.service == services@[i]
                            &&& s.expanded
                            &&& s.options.default_address is None
                            &&& s.options.verify_certs
                        }
                },
                AppCommand::FileLoaded(Err(causes)) => {
                    &&& final(self).body == old(self).body
                    &&& final(self).sidebar == old(self).sidebar
                    &&& final(self).error matches Some(e) && e@ == load_error_text(causes@)
                },
                AppCommand::CloseSelectedTab => final(self).sidebar == old(self).sidebar && final(self).error
                    == old(self).error && post_close_selected_tab(old(self).body, final(self).body),
                AppCommand::SelectNextTab => final(self).sidebar == old(self).sidebar && final(self).error
                    == old(self).error && post_select_next_tab(old(self).body, final(self).body),
                AppCommand::SelectPrevTab => final(self).sidebar == old(self).sidebar && final(self).error
                    == old(self).error && post_select_prev_tab(old(self).body, final(self).body),
                AppCommand::ClearRequestHistory => final(self).sidebar == old(self).sidebar && final(self).error
                    == old(self).error && post_clear_request_history(old(self).body, final(self).body),
                AppCommand::SelectOrCreateCompileTab => final(self).sidebar == old(self).sidebar
                    && final(self).error == old(self).error && post_select_or_create_compiler_tab(
                    old(self).body,
                    final(self).body,
                    old(self).sidebar.spec_compile_options().includes@,
                ),
                AppCommand::SetCompileOptions(options) => {
                    &&& final(self).body == old(self).body
                    &&& final(self).error == old(self).error
                    &&& final(self).sidebar.spec_services() == old(self).sidebar.spec_services()
                    &&& final(self).sidebar.spec_compile_options() == options
                },
                AppCommand::SelectOrCreateReflectionTab => final(self).sidebar == old(self).sidebar
                    && final(self).error == old(self).error && post_select_or_create_reflection_tab(
                    old(self).body,
                    final(self).body,
                ),
                AppCommand::SetServiceOptions(service, options) => {
                    &&& final(self).error == old(self).error
                    &&& options_set(
                        old(self).sidebar.spec_services(),
                        final(self).sidebar.spec_services(),
                        service,
                        options,
                    )
                    &&& post_set_service_options(old(self).body, final(self).body, &service, &options)
                },
                AppCommand::SelectOrCreateOptionsTab(service, options) => final(self).sidebar == old(self).sidebar
                    && final(self).error == old(self).error && post_select_or_create_options_tab(
                    old(self).body,
                    final(self).body,
                    &service,
                    options,
                ),
                AppCommand::SelectOrCreateMethodTab { method, request, request_valid } => {
                    &&& final(self).sidebar == old(self).sidebar
                    &&& final(self).error == old(self).error
                    &&& match first_service(old(self).sidebar.spec_services(), method.service) {
                        Some(k) => post_select_or_create_method_tab(
                            old(self).body,
                            final(self).body,
                            &method,
                            old(self).sidebar.spec_services()[k].options,
                            request,
                            request_valid,
                        ),
                        None => final(self).body == old(self).body,
                    }
                },
                AppCommand::AddService(service, options) => {
                    &&& final(self).body == old(self).body
                    &&& final(self).error == old(self).error
                    &&& final(self).sidebar.spec_services() == old(self).sidebar.spec_services().push(
                        SidebarService { service, expanded: true, options },
                    )
                },
                AppCommand::RemoveService(i) => {
                    &&& final(self).error == old(self).error
                    &&& final(self).sidebar.spec_services() == old(self).sidebar.spec_services().remove(
                        i as int,
                    )
                    &&& post_remove_service(
                        old(self).body,
                        final(self).body,
                        &old(self).sidebar.spec_services()[i as int].service,
                    )
                },
                AppCommand::CreateTab { method, request, request_valid } => {
                    &&& final(self).sidebar == old(self).sidebar
                    &&& final(self).error == old(self).error
                    &&& match first_service(old(self).sidebar.spec_services(), method.service) {
                        Some(k) => post_create_method_tab(
                            old(self).body,
                            final(self).body,
                            &method,
                            old(self).sidebar.spec_services()[k].options,
                            request,
                            request_valid,
                        ),
                        None => final(self).body == old(self).body,
                    }
                },
            },
    {
        match cmd {
            AppCommand::FileLoaded(Ok(services)) => {
                self.sidebar.add_services(services);
                self.error = None;
            },
            AppCommand::FileLoaded(Err(causes)) => {
                let mut text = "Error loading file: ".to_owned();
                let detail = fmt_err(&causes);
                push_str(&mut text, detail.as_str());
                proof {
                    reveal_strlit("Error loading file: ");
                }
                self.error = Some(text);
            },
            AppCommand::CloseSelectedTab => self.body.close_selected_tab(),
            AppCommand::SelectNextTab => self.body.select_next_tab(),
            AppCommand::SelectPrevTab => self.body.select_prev_tab(),
            AppCommand::ClearRequestHistory => self.body.clear_request_history(),
            AppCommand::SelectOrCreateCompileTab => {
                let options = self.sidebar.compile_options().duplicate();
                self.body.select_or_create_compiler_tab(options);
            },
            AppCommand::SetCompileOptions(options) => self.sidebar.set_compile_options(options),
            AppCommand::SelectOrCreateReflectionTab => self.body.select_or_create_reflection_tab(),
            AppCommand::SetServiceOptions(service, options) => {
                self.body.set_service_options(&service, &options);
                self.sidebar.set_service_options(&service, &options);
            },
            AppCommand::SelectOrCreateOptionsTab(service, options) => {
                self.body.select_or_create_options_tab(&service, options);
            },
            AppCommand::SelectOrCreateMethodTab { method, request, request_valid } => {
                let options = match self.sidebar.get_service_options(&method.service) {
                    Some(o) => Some(o.duplicate()),
                    None => None,
                };
                if let Some(options) = options {
                    self.body.select_or_create_method_tab(&method, options, request, request_valid);
                }
            },
            AppCommand::AddService(service, options) => {
                self.sidebar.add_service(service, options);
            },
            AppCommand::RemoveService(i) => {
                let removed = self.sidebar.remove_service(i);
                self.body.remove_service(&removed.service);
            },
            AppCommand::CreateTab { method, request, request_valid } => {
                let options = match self.sidebar.get_service_options(&method.service) {
                    Some(o) => Some(o.duplicate()),
                    None => None,
                };
                if let Some(options) = options {
                    self.body.create_method_tab(&method, options, request, request_valid);
                }
            },
        }
    }
}

} // verus!
