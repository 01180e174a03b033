//! The outside engines that the library calls: the template renderer and
//! the readers of JSON and YAML. What is stated of them here is believed,
//! not proved.

use vstd::prelude::*;
use crate::helpers::{apply_helper, HelperKind};
use crate::partials::includes_templates;
use crate::value::{Json, JsonValue};

verus! {

#[verifier::external_type_specification]
#[verifier::external_body]
pub struct ExRegistry<'reg>(handlebars::Handlebars<'reg>);

#[verifier::external_type_specification]
#[verifier::external_body]
pub struct ExJsonValue(serde_json::Value);

#[verifier::external_type_specification]
#[verifier::external_body]
pub struct ExJsonError(serde_json::Error);

#[verifier::external_type_specification]
#[verifier::external_body]
pub struct ExYamlValue(serde_yaml::Value);

#[verifier::external_type_specification]
#[verifier::external_body]
pub struct ExYamlError(serde_yaml::Error);

/// How a renderer is set up, as far as the library sets it up.
pub struct EngineSetup {
    /// Whether a reference to a value that is not there is an error.
    pub strict: bool,
    /// Whether rendered values are escaped for HTML.
    pub escapes: bool,
    /// The helpers of the library that were registered, by the names they
    /// were registered under. The helpers that the renderer brings with
    /// it are not among them.
    pub helpers: Map<Seq<char>, HelperKind>,
}

/// The value that a `serde_json` value holds. Numbers are held as the
/// text that `serde_json` prints for them.
pub uninterp spec fn json_of(value: serde_json::Value) -> Json;

/// A value of the library as `serde_json` holds it: what `json_of` gives
/// for the `serde_json` value that stands for it.
pub uninterp spec fn json_form(value: Json) -> Json;

/// The value that `serde_json` reads from a text, where it reads one.
pub uninterp spec fn json_reading(text: Seq<char>) -> Option<Json>;

/// What `serde_yaml` reads from a text, where it reads a value: the
/// value as JSON, where it has a JSON form.
pub uninterp spec fn yaml_reading(text: Seq<char>) -> Option<Option<Json>>;

/// A `serde_yaml` value as JSON, where it has a JSON form.
pub uninterp spec fn yaml_as_json(value: serde_yaml::Value) -> Option<Json>;

/// How a renderer was set up.
pub uninterp spec fn engine_setup(engine: handlebars::Handlebars<'static>) -> EngineSetup;

/// What a renderer with the given setup makes of a template and the
/// value that its data holds: the text, or what the renderer says of the
/// failure.
pub uninterp spec fn rendering(template: Seq<char>, data: Json, setup: EngineSetup) -> Result<
    Seq<char>,
    Seq<char>,
>;

/// Converts a `serde_json::Value`, variant by variant. A mapping of
/// `serde_json` keeps each key once and in order, so the result is well
/// formed.
#[verifier::external_body]
pub(crate) fn from_json(value: &serde_json::Value) -> (r: JsonValue)
    ensures
        r@ == json_of(*value),
        r@.wf(),
{
    match value {
        serde_json::Value::Null => JsonValue::Null,
        serde_json::Value::Bool(b) => JsonValue::Bool(*b),
        serde_json::Value::Number(n) => JsonValue::Number(n.to_string()),
        serde_json::Value::String(s) => JsonValue::Text(s.clone()),
        serde_json::Value::Array(a) => JsonValue::Array(a.iter().map(from_json).collect()),
        serde_json::Value::Object(m) => JsonValue::Object(
            m.iter().map(|(k, v)| (k.clone(), from_json(v))).collect(),
        ),
    }
}

/// Converts to a `serde_json::Value`, variant by variant. A number whose
/// text `serde_json` does not read as a number becomes null, and of
/// members with one key the last stays. What the result holds depends on
/// the value alone.
#[verifier::external_body]
pub(crate) fn to_json(value: &JsonValue) -> (r: serde_json::Value)
    ensures
        json_of(r) == json_form(value@),
{
    match value {
        JsonValue::Null => serde_json::Value::Null,
        JsonValue::Bool(b) => serde_json::Value::Bool(*b),
        JsonValue::Number(n) => n.parse().map_or(serde_json::Value::Null, serde_json::Value::Number),
        JsonValue::Text(s) => serde_json::Value::String(s.clone()),
        JsonValue::Array(a) => serde_json::Value::Array(a.iter().map(to_json).collect()),
        JsonValue::Object(m) => serde_json::Value::Object(
            m.iter().map(|(k, v)| (k.clone(), to_json(v))).collect(),
        ),
    }
}

/// `serde_json::from_str`: reads a text as one JSON value. Whether it
/// succeeds and what it reads depend on the text alone.
#[verifier::external_body]
pub(crate) fn parse_json(text: &str) -> (r: Result<serde_json::Value, serde_json::Error>)
    ensures
        match r {
            Ok(v) => json_reading(text@) == Some(json_of(v)),
            Err(_) => json_reading(text@) is None,
        },
{
    serde_json::from_str::<serde_json::Value>(text)
}

/// `serde_yaml::from_str`: reads a text as one YAML value. Whether it
/// succeeds and what the value that it reads holds depend on the text
/// alone.
#[verifier::external_body]
pub(crate) fn parse_yaml(text: &str) -> (r: Result<serde_yaml::Value, serde_yaml::Error>)
    ensures
        match r {
            Ok(v) => yaml_reading(text@) == Some(yaml_as_json(v)),
            Err(_) => yaml_reading(text@) is None,
        },
{
    serde_yaml::from_str::<serde_yaml::Value>(text)
}

/// `serde_json::to_value` on a YAML value: the value as JSON. It fails
/// where the value has no JSON form, such as a mapping with a key that is
/// no text.
#[verifier::external_body]
pub(crate) fn yaml_to_json(value: &serde_yaml::Value) -> (r: Result<serde_json::Value, serde_json::Error>)
    ensures
        match r {
            Ok(v) => yaml_as_json(*value) == Some(json_of(v)),
            Err(_) => yaml_as_json(*value) is None,
        },
{
    serde_json::to_value(value)
}

/// `Handlebars::new`: a renderer that is not strict, escapes for HTML
/// and has none of the library's helpers.
#[verifier::external_body]
pub(crate) fn engine_new() -> (r: handlebars::Handlebars<'static>)
    ensures
        engine_setup(r) == (EngineSetup { strict: false, escapes: true, helpers: Map::empty() }),
{
    handlebars::Handlebars::new()
}

/// `Handlebars::set_strict_mode`: sets whether the renderer is strict.
#[verifier::external_body]
pub(crate) fn engine_set_strict_mode(engine: &mut handlebars::Handlebars<'static>, enabled: bool)
    ensures
        engine_setup(*final(engine)) == (EngineSetup {
            strict: enabled,
            ..engine_setup(*old(engine))
        }),
{
    engine.set_strict_mode(enabled)
}

/// `Handlebars::register_escape_fn` with `handlebars::no_escape`: from
/// then on the renderer writes values as they are.
#[verifier::external_body]
pub(crate) fn engine_disable_escaping(engine: &mut handlebars::Handlebars<'static>)
    ensures
        engine_setup(*final(engine)) == (EngineSetup {
            escapes: false,
            ..engine_setup(*old(engine))
        }),
{
    engine.register_escape_fn(handlebars::no_escape)
}

/// `Handlebars::register_helper`: registers under `name` a helper that
/// hands the values of its arguments to `apply_helper` and writes the
/// text that comes back, or fails with the reason that comes back.
#[verifier::external_body]
pub(crate) fn engine_register_helper(
    engine: &mut handlebars::Handlebars<'static>,
    name: &str,
    kind: HelperKind,
)
    ensures
        engine_setup(*final(engine)) == (EngineSetup {
            helpers: engine_setup(*old(engine)).helpers.insert(name@, kind),
            ..engine_setup(*old(engine))
        }),
{
    engine.register_helper(
        name,
        Box::new(
            move |h: &handlebars::Helper, _: &handlebars::Handlebars, _: &handlebars::Context, _: &mut handlebars::RenderContext, out: &mut dyn handlebars::Output| -> handlebars::HelperResult {
                let args: Vec<JsonValue> = h.params().iter().map(|p| from_json(p.value())).collect();
                let text = apply_helper(kind, &args).map_err(handlebars::RenderError::new)?;
                Ok(out.write(&text)?)
            },
        ),
    )
}

/// `Handlebars::render_template`: renders a template against data, and
/// gives the text or, as a text, what the renderer says of the failure.
/// Both depend on the template, on what the data holds and on the setup
/// of the renderer alone. The template may call no partial and no
/// decorator: a partial that is defined in the template and calls itself
/// would not end.
#[verifier::external_body]
pub(crate) fn engine_render(
    engine: &handlebars::Handlebars<'static>,
    template: &str,
    data: &serde_json::Value,
) -> (r: Result<String, String>)
    requires
        !includes_templates(template@),
    ensures
        match r {
            Ok(text) => rendering(template@, json_of(*data), engine_setup(*engine)) == Ok::<
                Seq<char>,
                Seq<char>,
            >(text@),
            Err(message) => rendering(template@, json_of(*data), engine_setup(*engine)) == Err::<
                Seq<char>,
                Seq<char>,
            >(message@),
        },
{
    engine.render_template(template, data).map_err(|e| e.to_string())
}

/// Reads a text as one JSON value, if it is one.
pub fn read_json(text: &str) -> (r: Option<JsonValue>)
    ensures
        match r {
            Some(value) => json_reading(text@) == Some(value@) && value@.wf(),
            None => json_reading(text@) is None,
        },
{
    match parse_json(text) {
        Ok(document) => Some(from_json(&document)),
        Err(_) => None,
    }
}

} // verus!
