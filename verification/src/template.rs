//! Compiling a template: resolving the input against the templates folder,
//! and deriving the output path where the rendered SQL belongs. Rendering
//! itself and every filesystem probe stay outside the library; their
//! answers come in as arguments and the path arithmetic here is proved.

use vstd::prelude::*;

use crate::config::Config;
use crate::config::ConfigV;
use crate::errors::Error;
use crate::paths::{is_prefix_of, PathB, PathV};
use crate::strutil::{chars_to_string, str_to_chars};

verus! {

/// The index of the last `.` that can separate a stem from an extension: a
/// dot at position one or later, as a leading dot starts a hidden file's
/// name rather than an extension. `-1` when there is none.
pub open spec fn last_dot(s: Seq<char>) -> int
    decreases s.len(),
{
    if s.len() <= 1 {
        -1
    } else if s.last() == '.' {
        s.len() - 1
    } else {
        last_dot(s.drop_last())
    }
}

/// What [`last_dot`] returns: `-1`, or the position of a dot after which
/// no further dot follows.
pub proof fn lemma_last_dot(s: Seq<char>)
    ensures
        last_dot(s) == -1 || (1 <= last_dot(s) < s.len() && s[last_dot(s)] == '.'),
        forall|j: int| last_dot(s) < j < s.len() && j >= 1 ==> s[j] != '.',
    decreases s.len(),
{
    if s.len() <= 1 {
    } else if s.last() == '.' {
    } else {
        lemma_last_dot(s.drop_last());
        assert forall|j: int| last_dot(s) < j < s.len() && j >= 1 implies s[j] != '.' by {
            if j < s.len() - 1 {
                assert(s.drop_last()[j] == s[j]);
            }
        }
    }
}

/// A file name without its extension: everything before the last dot, or
/// the whole name when no dot can separate an extension.
pub open spec fn spec_file_stem(s: Seq<char>) -> Seq<char> {
    if last_dot(s) < 0 {
        s
    } else {
        s.take(last_dot(s))
    }
}

/// The template marker inside file names.
pub open spec fn jinja_pat() -> Seq<char> {
    seq!['.', 'j', 'i', 'n', 'j', 'a']
}

/// `s` with every occurrence of the template marker removed, scanning left
/// to right without overlap.
pub open spec fn spec_remove_jinja(s: Seq<char>) -> Seq<char>
    decreases s.len(),
{
    if s.len() < 6 {
        s
    } else if s.take(6) == jinja_pat() {
        spec_remove_jinja(s.skip(6))
    } else {
        seq![s[0]] + spec_remove_jinja(s.skip(1))
    }
}

/// The first `m` characters of `v`.
fn take_chars(v: &Vec<char>, m: usize) -> (r: Vec<char>)
    requires
        m <= v@.len(),
    ensures
        r@ == v@.take(m as int),
{
    let mut r: Vec<char> = Vec::new();
    let mut j: usize = 0;
    while j < m
        invariant
            j <= m <= v@.len(),
            r@ == v@.take(j as int),
        decreases m - j,
    {
        r.push(v[j]);
        proof {
            assert(v@.take(j as int).push(v@[j as int]) =~= v@.take(j + 1 as int));
        }
        j = j + 1;
    }
    r
}

/// Exactly [`spec_file_stem`].
fn file_stem_chars(v: &Vec<char>) -> (r: Vec<char>)
    ensures
        r@ == spec_file_stem(v@),
{
    proof {
        lemma_last_dot(v@);
    }
    let n = v.len();
    if n <= 1 {
        let r = take_chars(v, n);
        proof {
            assert(v@.take(n as int) =~= v@);
        }
        return r;
    }
    let mut i: usize = n - 1;
    loop
        invariant
            n == v@.len(),
            2 <= n,
            1 <= i <= n - 1,
            forall|j: int| i < j < n ==> v@[j] != '.',
        decreases i,
    {
        if v[i] == '.' {
            proof {
                lemma_last_dot(v@);
                assert(last_dot(v@) == i);
            }
            return take_chars(v, i);
        }
        if i == 1 {
            proof {
                lemma_last_dot(v@);
                assert(last_dot(v@) == -1);
            }
            let ghost whole = v@;
            let r = take_chars(v, n);
            proof {
                assert(v@.take(n as int) =~= whole);
            }
            return r;
        }
        i = i - 1;
    }
}

/// Exactly [`spec_remove_jinja`].
fn remove_jinja_chars(v: &Vec<char>) -> (r: Vec<char>)
    ensures
        r@ == spec_remove_jinja(v@),
{
    let mut out: Vec<char> = Vec::new();
    let mut i: usize = 0;
    proof {
        assert(v@.skip(0) =~= v@);
        assert(out@ + spec_remove_jinja(v@) =~= spec_remove_jinja(v@));
    }
    while i < v.len()
        invariant
            i <= v@.len(),
            spec_remove_jinja(v@) == out@ + spec_remove_jinja(v@.skip(i as int)),
        decreases v@.len() - i,
    {
        let is_match = v.len() - i >= 6 && v[i] == '.' && v[i + 1] == 'j' && v[i + 2] == 'i' && v[i
            + 3] == 'n' && v[i + 4] == 'j' && v[i + 5] == 'a';
        proof {
            assert forall|t: int| 0 <= t < v@.skip(i as int).len() implies #[trigger] v@.skip(
                i as int,
            )[t] == v@[i + t] by {}
        }
        if is_match {
            proof {
                assert(v@.skip(i as int).take(6) =~= jinja_pat());
                assert(v@.skip(i as int).skip(6) =~= v@.skip(i + 6 as int));
                assert(spec_remove_jinja(v@.skip(i as int)) == spec_remove_jinja(
                    v@.skip(i + 6 as int),
                ));
            }
            i = i + 6;
        } else {
            proof {
                let rest = v@.skip(i as int);
                if rest.len() >= 6 {
                    if rest.take(6) == jinja_pat() {
                        assert(rest.take(6)[0] == rest[0] && rest.take(6)[1] == rest[1]
                            && rest.take(6)[2] == rest[2] && rest.take(6)[3] == rest[3]
                            && rest.take(6)[4] == rest[4] && rest.take(6)[5] == rest[5]);
                        assert(false);
                    }
                    assert(spec_remove_jinja(rest) == seq![rest[0]] + spec_remove_jinja(
                        rest.skip(1),
                    ));
                } else {
                    assert(spec_remove_jinja(rest) == rest);
                    assert(spec_remove_jinja(rest.skip(1)) == rest.skip(1));
                    assert(rest =~= seq![rest[0]] + rest.skip(1));
                }
                assert(rest.skip(1) =~= v@.skip(i + 1 as int));
                assert(spec_remove_jinja(rest) == seq![v@[i as int]] + spec_remove_jinja(
                    v@.skip(i + 1 as int),
                ));
                assert(out@ + spec_remove_jinja(rest) =~= out@.push(v@[i as int])
                    + spec_remove_jinja(v@.skip(i + 1 as int)));
            }
            out.push(v[i]);
            i = i + 1;
        }
    }
    proof {
        assert(v@.skip(v@.len() as int) =~= Seq::<char>::empty());
        assert(out@ + Seq::<char>::empty() =~= out@);
    }
    out
}

/// The name a compiled file gets: the input name's stem, with every
/// template marker removed, its extension forced to `.sql`.
pub open spec fn spec_output_file_name(name: Seq<char>) -> Seq<char> {
    spec_file_stem(spec_remove_jinja(spec_file_stem(name))) + ".sql"@
}

/// Exactly [`spec_output_file_name`].
pub fn output_file_name(name: &String) -> (r: String)
    ensures
        r@ == spec_output_file_name(name@),
{
    let v = str_to_chars(name.as_str());
    let s1 = file_stem_chars(&v);
    let s2 = remove_jinja_chars(&s1);
    let s3 = file_stem_chars(&s2);
    let mut out = chars_to_string(&s3);
    out.append(".sql");
    out
}

/// The file to compile: the input itself when it is a file; a directory
/// stands for its root template, and is refused when that file is missing.
pub fn select_input_file(
    input: &PathB,
    input_is_dir: bool,
    root_template: &String,
    root_template_exists: bool,
) -> (r: Result<PathB, Error>)
    ensures
        !input_is_dir ==> r is Ok && r.unwrap()@ == input@,
        input_is_dir && root_template_exists ==> r is Ok && r.unwrap()@.absolute
            == input@.absolute && r.unwrap()@.components == input@.components.push(
            root_template@,
        ),
        input_is_dir && !root_template_exists ==> r == Err::<PathB, Error>(
            Error::MissingRootTemplate,
        ),
{
    if !input_is_dir {
        Ok(input.clone())
    } else if root_template_exists {
        Ok(input.join(root_template))
    } else {
        Err(Error::MissingRootTemplate)
    }
}

/// The input expressed relative to the templates folder; an input that
/// does not lie under it is refused.
pub fn resolve_input_path(input_canonical: &PathB, templates_abs: &PathB) -> (r: Result<
    PathB,
    Error,
>)
    ensures
        r is Ok <==> (input_canonical@.absolute == templates_abs@.absolute && is_prefix_of(
            templates_abs@.components,
            input_canonical@.components,
        )),
        r is Ok ==> r.unwrap()@.absolute == false && r.unwrap()@.components
            == input_canonical@.components.skip(templates_abs@.components.len() as int),
        r is Err ==> r == Err::<PathB, Error>(Error::PathOutsideTemplates),
{
    match input_canonical.strip_prefix(templates_abs) {
        Some(rel) => Ok(rel),
        None => Err(Error::PathOutsideTemplates),
    }
}

/// Where a compiled file belongs when no output path was given: under the
/// outputs folder (a sibling of the configuration file), mirroring the
/// input's directories, under its derived file name.
pub open spec fn spec_output_path(
    input_rel: Seq<Seq<char>>,
    config: ConfigV,
    root_parent: PathV,
) -> PathV {
    PathV {
        absolute: root_parent.absolute,
        components: root_parent.components.push(config.outputs_folder) + input_rel.drop_last()
            + seq![spec_output_file_name(input_rel.last())],
    }
}

/// The output path: the explicit one when given, else
/// [`spec_output_path`]; without an explicit output, an input with no file
/// name is refused.
pub fn resolve_output_path(
    output: Option<&PathB>,
    input_rel: &PathB,
    config: &Config,
    project_root_parent: &PathB,
) -> (r: Result<PathB, Error>)
    ensures
        output is Some ==> r is Ok && r.unwrap()@ == output.unwrap()@,
        output is None && input_rel@.components.len() == 0 ==> r == Err::<PathB, Error>(
            Error::InvalidFileName,
        ),
        output is None && input_rel@.components.len() > 0 ==> r is Ok && r.unwrap()@
            == spec_output_path(input_rel@.components, config@, project_root_parent@),
{
    match output {
        Some(path) => Ok((*path).clone()),
        None => {
            match input_rel.file_name() {
                None => Err(Error::InvalidFileName),
                Some(name) => {
                    let dir = project_root_parent.join(&config.outputs_folder);
                    let parent = input_rel.parent().unwrap();
                    let dir = dir.join_path(&parent);
                    let fname = output_file_name(&name);
                    let out = dir.join(&fname);
                    proof {
                        assert(out@.components =~= spec_output_path(
                            input_rel@.components,
                            config@,
                            project_root_parent@,
                        ).components);
                    }
                    Ok(out)
                },
            }
        },
    }
}

/// A compilation, planned: which template (relative to the templates
/// folder) to render, and where to write the rendered text.
#[derive(Debug, PartialEq, Eq)]
pub struct CompilePlan {
    /// The input, expressed relative to the templates folder.
    pub template_rel: PathB,
    /// The file the rendered output belongs in.
    pub output_path: PathB,
}

/// The templates folder: named by the configuration, a sibling of the
/// configuration file.
pub open spec fn spec_templates_abs(config: ConfigV, root_parent: PathV) -> PathV {
    PathV {
        absolute: root_parent.absolute,
        components: root_parent.components.push(config.templates_folder),
    }
}

/// Whether a canonical input lies under the templates folder.
pub open spec fn input_under_templates(canon: PathV, tabs: PathV) -> bool {
    canon.absolute == tabs.absolute && is_prefix_of(tabs.components, canon.components)
}

/// The whole compilation pipeline, decided from the probes' answers: a
/// directory whose root template is missing is refused; the (canonicalized,
/// already selected) input must lie under the templates folder; and the
/// output path is the explicit one, or derived, refusing an input with no
/// file name.
pub fn compile_template(
    input_is_dir: bool,
    root_template_exists: bool,
    canonical_selected: &PathB,
    output: Option<&PathB>,
    config: &Config,
    project_root_parent: &PathB,
) -> (r: Result<CompilePlan, Error>)
    ensures
        input_is_dir && !root_template_exists ==> r == Err::<CompilePlan, Error>(
            Error::MissingRootTemplate,
        ),
        !(input_is_dir && !root_template_exists) ==> {
            let tabs = spec_templates_abs(config@, project_root_parent@);
            if !input_under_templates(canonical_selected@, tabs) {
                r == Err::<CompilePlan, Error>(Error::PathOutsideTemplates)
            } else {
                let relc = canonical_selected@.components.skip(tabs.components.len() as int);
                if output is None && relc.len() == 0 {
                    r == Err::<CompilePlan, Error>(Error::InvalidFileName)
                } else {
                    &&& r is Ok
                    &&& r.unwrap().template_rel@.absolute == false
                    &&& r.unwrap().template_rel@.components == relc
                    &&& (output is Some ==> r.unwrap().output_path@ == output.unwrap()@)
                    &&& (output is None ==> r.unwrap().output_path@ == spec_output_path(
                        relc,
                        config@,
                        project_root_parent@,
                    ))
                }
            }
        },
{
    if input_is_dir && !root_template_exists {
        return Err(Error::MissingRootTemplate);
    }
    let templates_abs = project_root_parent.join(&config.templates_folder);
    let rel = match resolve_input_path(canonical_selected, &templates_abs) {
        Ok(rel) => rel,
        Err(e) => {
            return Err(e);
        },
    };
    match resolve_output_path(output, &rel, config, project_root_parent) {
        Ok(output_path) => Ok(CompilePlan { template_rel: rel, output_path }),
        Err(e) => Err(e),
    }
}

} // verus!
