//! Turning a decoded request into a task: resolve the webhook, render its
//! command template with the caller's parameters, and stamp the result with
//! the current time. Everything but the timestamp is pinned down exactly.

use vstd::prelude::*;

use crate::clock::now_local_rfc3339;
use crate::messages::NewTask;
use crate::settings::{has_hook, hook_index_of, names_unique, Settings};
use crate::template::{
    params_view, render_template, verify_template_parameters, TemplateError,
};

verus! {

/// Why no task came out of a request.
#[derive(Clone, Copy, PartialEq, Eq, Structural, Debug)]
pub enum RequestError {
    /// The path names no webhook of the catalogue.
    UnknownWebhook,
    /// The webhook's template does not render with these parameters.
    Template(TemplateError),
}

/// Build the task a request asks for: the named webhook's rendered command
/// and working directory, the caller's parameters, a fresh timestamp. An
/// unknown name or a template failure is the matching error, and no task.
pub fn get_task_from_request(
    settings: &Settings,
    name: String,
    parameters: Option<Vec<(String, String)>>,
) -> (result: Result<NewTask, RequestError>)
    requires
        names_unique(settings.webhooks@),
    ensures
        ({
            let hooks = settings.webhooks@;
            let given = match parameters {
                None => Seq::<(String, String)>::empty(),
                Some(ps) => ps@,
            };
            if !has_hook(hooks, name@) {
                result == Err::<NewTask, RequestError>(RequestError::UnknownWebhook)
            } else {
                let hook = hooks[hook_index_of(hooks, name@)];
                match render_template(hook.command@, params_view(given)) {
                    Ok(cmd) => {
                        &&& result is Ok
                        &&& result matches Ok(task) ==> {
                            &&& task.webhook_name == hook.name
                            &&& task.cwd == hook.cwd
                            &&& task.command@ == cmd
                            &&& task.parameters@ == given
                        }
                    },
                    Err(e) => result == Err::<NewTask, RequestError>(RequestError::Template(e)),
                }
            }
        }),
{
    let params: Vec<(String, String)> = match parameters {
        Some(ps) => ps,
        None => Vec::new(),
    };
    proof {
        if params@.len() == 0 {
            assert(params@ =~= Seq::<(String, String)>::empty());
        }
    }
    let webhook = match settings.get_webhook_by_name(&name) {
        Some(webhook) => webhook,
        None => {
            return Err(RequestError::UnknownWebhook);
        },
    };
    proof {
        let i = choose|i: int|
            0 <= i < settings.webhooks@.len() && #[trigger] settings.webhooks@[i] == webhook
                && webhook.name@ == name@ && forall|j: int|
                0 <= j < i ==> #[trigger] settings.webhooks@[j].name@ != name@;
        crate::settings::lemma_hook_index_is(settings.webhooks@, i);
    }
    let command = match verify_template_parameters(webhook.command, &params) {
        Ok(command) => command,
        Err(e) => {
            return Err(RequestError::Template(e));
        },
    };
    Ok(NewTask {
        webhook_name: webhook.name,
        parameters: params,
        cwd: webhook.cwd,
        command,
        added_at: now_local_rfc3339(),
    })
}

} // verus!
