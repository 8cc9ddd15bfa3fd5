//! Templates for paths.

use crate::blocks;
use crate::blocks::simple_template;
use crate::table;
use crate::text::concat3;
use vstd::prelude::*;

verus! {

#[verifier::external_type_specification]
#[verifier::external_body]
pub struct ExTemplateError(minijinja::Error);

/// What `minijinja::Environment::render_str` makes of a template in the default
/// environment, where `env` and `overlays` are maps of texts; nothing where it
/// fails.
pub uninterp spec fn template_rendered(
    template: Seq<char>,
    env: Seq<(Seq<char>, Seq<char>)>,
    overlays: Seq<(Seq<char>, Seq<char>)>,
) -> Option<Seq<char>>;

/// `minijinja::Environment::render_str` in the default environment. The outcome is
/// a function of the template and of the two maps; of two values for one key the
/// later one counts. Only simple templates are asked for. In others
/// - the engine panics on some arguments of `range`, `batch`, `slice`, `indent`,
///   `format`, `chain`, `divisibleby` and `loop.cycle`, on some slices by steps, and
///   on some lists that are sorted by an attribute that not all items have,
/// - `map`, `select` and their kin, macros, recursive loops and repeated
///   assignments lead to these or to values of any size and depth,
/// - the parser and the compiler recurse on long and on nested expressions without
///   a limit that fits every stack,
/// - functions that are not called show names that only their compiler knows.
/// As everywhere in the library, memory is taken to suffice for what is computed.
#[verifier::external_body]
fn minijinja_render(
    template: &str,
    env: &Vec<(String, String)>,
    overlays: &Vec<(String, String)>,
) -> (r: Result<String, minijinja::Error>)
    requires
        blocks::is_simple_template(template@),
    ensures
        match (template_rendered(template@, table::pairs(env@), table::pairs(overlays@)), r) {
            (Some(t), Ok(s)) => s@ == t,
            (None, Err(_)) => true,
            _ => false,
        },
{
    let variables = minijinja::Value::from_pairs(env.iter().map(|p| (p.0.as_str(), p.1.as_str())));
    let known = minijinja::Value::from_pairs(overlays.iter().map(|p| (p.0.as_str(), p.1.as_str())));
    let state = minijinja::Value::from_pairs([("env", variables), ("overlays", known)]);
    minijinja::Environment::new().render_str(template, state)
}

/// What is said of a template that cannot be rendered.
pub open spec fn not_rendered(template: Seq<char>) -> Seq<char> {
    "failed to render symlink target template '"@ + template + "'"@
}

/// What comes of rendering the target of a link: the text, or an error that names
/// the template.
pub fn rendered_target(template: &str, rendered: Option<String>) -> (r: Result<String, String>)
    ensures
        match (rendered, r) {
            (Some(t), Ok(s)) => s == t,
            (None, Err(e)) => e@ == not_rendered(template@),
            _ => false,
        },
{
    match rendered {
        Some(t) => Ok(t),
        None => Err(concat3("failed to render symlink target template '", template, "'")),
    }
}

/// The target of a link: its template with the variables of the process in `env`
/// and the directories of overlays in `overlays`. A template that is not simple is
/// refused.
pub fn render_symlink_target(
    template: &str,
    env: &Vec<(String, String)>,
    overlays: &Vec<(String, String)>,
) -> (r: Result<String, String>)
    ensures
        ({
            let simple = blocks::is_simple_template(template@);
            let rendered = template_rendered(
                template@,
                table::pairs(env@),
                table::pairs(overlays@),
            );
            match r {
                Ok(s) => simple && rendered == Some(s@),
                Err(e) => (!simple || rendered is None) && e@ == not_rendered(template@),
            }
        }),
{
    if !simple_template(template) {
        return rendered_target(template, None);
    }
    match minijinja_render(template, env, overlays) {
        Ok(s) => rendered_target(template, Some(s)),
        Err(_) => rendered_target(template, None),
    }
}

/// A template that cannot be rendered is named.
pub proof fn failures_name_the_template(template: Seq<char>)
    ensures
        ("failed to render symlink target template '"@ + template).is_prefix_of(
            not_rendered(template),
        ),
        not_rendered(template).last() == '\'',
{
    reveal_strlit("'");
    let a = "failed to render symlink target template '"@ + template;
    let r = not_rendered(template);
    assert(r.subrange(0, a.len() as int) =~= a);
}

} // verus!
