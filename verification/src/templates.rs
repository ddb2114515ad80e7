//! Evaluation of the templates that a new service is made from.

use vstd::prelude::*;
use vstd::string::*;

use crate::catalog::{provider_values, ProviderSelection};
use crate::text::{replace_text, text_replaced, texts};

verus! {

/// What a base template can refer to.
#[derive(Debug)]
pub struct BaseContext {
    /// Profile identifier.
    pub profile: String,
    /// Version of the kit.
    pub kit_version: String,
    /// Whether the lists below are resolved.
    pub resolved_context: bool,
    /// Whether the service ships static web files.
    pub web_static: bool,
    /// Selected modules.
    pub modules: Vec<String>,
    /// Selected providers.
    pub providers: Vec<ProviderSelection>,
    /// Runtime dependencies.
    pub runtime_dependencies: Vec<String>,
}

/// What a template can refer to.
pub enum ContextModel {
    /// What a base template can refer to.
    Base {
        /// Profile identifier.
        profile: Seq<char>,
        /// Version of the kit.
        kit_version: Seq<char>,
        /// Whether the lists are resolved.
        resolved: bool,
        /// Whether the service ships static web files.
        web_static: bool,
        /// Selected modules.
        modules: Seq<Seq<char>>,
        /// Selected providers, as slot and module.
        providers: Seq<(Seq<char>, Seq<char>)>,
        /// Runtime dependencies.
        dependencies: Seq<Seq<char>>,
    },
    /// What the template of the container image can refer to.
    Image {
        /// Profile identifier.
        profile: Seq<char>,
        /// Whether the service ships static web files.
        web_static: bool,
    },
}

impl BaseContext {
    /// The value of this context.
    pub open spec fn view(&self) -> ContextModel {
        ContextModel::Base {
            profile: self.profile@,
            kit_version: self.kit_version@,
            resolved: self.resolved_context,
            web_static: self.web_static,
            modules: texts(self.modules@),
            providers: provider_values(self.providers@),
            dependencies: texts(self.runtime_dependencies@),
        }
    }
}

/// `minijinja::Value`, opaque here.
#[verifier::external_type_specification]
#[verifier::external_body]
pub struct ExTemplateValue(minijinja::Value);

/// What a template can refer to in a `minijinja::Value` that was built for it.
pub uninterp spec fn context_contents(value: minijinja::Value) -> ContextModel;

/// What the template `source` gives under the name `name` in a context, or why it fails.
pub uninterp spec fn template_text(
    name: Seq<char>,
    source: Seq<char>,
    context: ContextModel,
) -> Result<Seq<char>, Seq<char>>;

/// Builds a map `minijinja::Value` from a base context, a key for each field.
#[verifier::external_body]
fn base_value(context: &BaseContext) -> (value: minijinja::Value)
    ensures
        context_contents(value) == context@,
{
    let provider = |p: &ProviderSelection| [("slot", p.slot.clone()), ("module", p.module.clone())];
    minijinja::Value::from_iter([
        ("profile", minijinja::Value::from(context.profile.as_str())),
        ("kit_version", minijinja::Value::from(context.kit_version.as_str())),
        ("resolved_context", minijinja::Value::from(context.resolved_context)),
        ("web_static", minijinja::Value::from(context.web_static)),
        ("modules", minijinja::Value::from_serialize(&context.modules)),
        ("providers", context.providers.iter().map(|p| minijinja::Value::from_iter(provider(p))).collect()),
        ("runtime_dependencies", minijinja::Value::from_serialize(&context.runtime_dependencies)),
    ])
}

/// Builds a map `minijinja::Value` with the keys `profile` and `web_static`.
#[verifier::external_body]
fn image_value(profile: &str, web_static: bool) -> (value: minijinja::Value)
    ensures
        context_contents(value) == (ContextModel::Image { profile: profile@, web_static }),
{
    minijinja::Value::from_iter([
        ("profile", minijinja::Value::from(profile)),
        ("web_static", minijinja::Value::from(web_static)),
    ])
}

/// Adds a template to a fresh `minijinja::Environment` that escapes nothing, keeps the trailing
/// line break and is strict about undefined names, and renders it. What comes out, and the text of
/// an error, depend on the name, the source and the context alone.
#[verifier::external_body]
fn evaluate(name: &str, source: &str, context: &minijinja::Value) -> (result: Result<String, String>)
    ensures
        match result {
            Ok(text) => template_text(name@, source@, context_contents(*context)) == Ok::<
                Seq<char>,
                Seq<char>,
            >(text@),
            Err(message) => template_text(name@, source@, context_contents(*context)) == Err::<
                Seq<char>,
                Seq<char>,
            >(message@),
        },
{
    let mut environment = minijinja::Environment::new();
    environment.set_undefined_behavior(minijinja::UndefinedBehavior::Strict);
    environment.set_auto_escape_callback(|_| minijinja::AutoEscape::None);
    environment.set_keep_trailing_newline(true);
    environment.add_template_owned(name.to_owned(), source.to_owned()).map_err(|error| error.to_string())?;
    let template = environment.get_template(name).map_err(|error| error.to_string())?;
    template.render(context).map_err(|error| error.to_string())
}

/// A template with the name of the project in place of its placeholder.
pub open spec fn named_source(source: Seq<char>, service: Seq<char>) -> Seq<char> {
    text_replaced(source, "{{project-name}}"@, service)
}

/// Evaluates a base template for a service.
pub fn render_base_template(
    path: &str,
    source: &str,
    service_name: &str,
    context: &BaseContext,
) -> (result: Result<String, String>)
    ensures
        match result {
            Ok(text) => template_text(path@, named_source(source@, service_name@), context@)
                == Ok::<Seq<char>, Seq<char>>(text@),
            Err(message) => template_text(path@, named_source(source@, service_name@), context@)
                == Err::<Seq<char>, Seq<char>>(message@),
        },
{
    let named = replace_text(source, "{{project-name}}", service_name);
    let value = base_value(context);
    evaluate(path, named.as_str(), &value)
}

/// Evaluates the template of the container image for a service.
pub fn render_image_template(source: &str, service_name: &str, web_static: bool) -> (result: Result<
    String,
    String,
>)
    ensures
        ({
            let owed = template_text(
                "ops/Dockerfile"@,
                named_source(source@, service_name@),
                (ContextModel::Image { profile: ""@, web_static }),
            );
            match result {
                Ok(text) => owed == Ok::<Seq<char>, Seq<char>>(text@),
                Err(message) => owed == Err::<Seq<char>, Seq<char>>(message@),
            }
        }),
{
    let named = replace_text(source, "{{project-name}}", service_name);
    let value = image_value("", web_static);
    evaluate("ops/Dockerfile", named.as_str(), &value)
}

} // verus!
