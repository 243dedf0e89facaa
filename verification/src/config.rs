//! The project configuration: its value, its defaults, and its file format.
//!
//! The configuration file holds one `key = "value"` line per field. The
//! writer and the reader here are both verified: the writer produces exactly
//! [`config_toml`] of the configuration, the reader returns exactly what
//! [`parse_config`] says the text means, and [`lemma_config_roundtrip`]
//! proves that reading back a written configuration restores every field.

use vstd::prelude::*;

use crate::errors::Error;
use crate::strutil::{chars_to_string, push_char, str_to_chars};

verus! {

/// The mathematical value of a [`Config`].
pub struct ConfigV {
    pub macros_folder: Seq<char>,
    pub templates_folder: Seq<char>,
    pub outputs_folder: Seq<char>,
    pub root_template: Seq<char>,
}

/// The four folder and file names that drive the tool, as read from the
/// project's configuration file.
#[derive(Debug, PartialEq, Eq)]
pub struct Config {
    /// Folder holding macro definitions available to every template.
    pub macros_folder: String,
    /// Folder holding the template sources.
    pub templates_folder: String,
    /// Folder receiving the compiled output.
    pub outputs_folder: String,
    /// File rendered when a directory is given as the input.
    pub root_template: String,
}

impl View for Config {
    type V = ConfigV;

    open spec fn view(&self) -> ConfigV {
        ConfigV {
            macros_folder: self.macros_folder@,
            templates_folder: self.templates_folder@,
            outputs_folder: self.outputs_folder@,
            root_template: self.root_template@,
        }
    }
}

impl Clone for Config {
    /// An exact copy, field for field.
    fn clone(&self) -> (r: Config)
        ensures
            r@ == self@,
    {
        Config {
            macros_folder: self.macros_folder.clone(),
            templates_folder: self.templates_folder.clone(),
            outputs_folder: self.outputs_folder.clone(),
            root_template: self.root_template.clone(),
        }
    }
}

/// The configuration a fresh project starts with.
pub open spec fn default_config() -> ConfigV {
    ConfigV {
        macros_folder: "macros"@,
        templates_folder: "models"@,
        outputs_folder: "compiled"@,
        root_template: "root.sql.jinja"@,
    }
}

impl Default for Config {
    /// The default folder layout: `macros`, `models`, `compiled`, and the
    /// root template `root.sql.jinja`.
    fn default() -> (r: Config)
        ensures
            r@ == default_config(),
    {
        Config {
            macros_folder: String::from_str("macros"),
            templates_folder: String::from_str("models"),
            outputs_folder: String::from_str("compiled"),
            root_template: String::from_str("root.sql.jinja"),
        }
    }
}

/// How one character is written inside a quoted value: the five characters
/// with an escape get it, every other character stands for itself.
pub open spec fn escape_char(c: char) -> Seq<char> {
    if c == '"' {
        seq!['\\', '"']
    } else if c == '\\' {
        seq!['\\', '\\']
    } else if c == '\n' {
        seq!['\\', 'n']
    } else if c == '\r' {
        seq!['\\', 'r']
    } else if c == '\t' {
        seq!['\\', 't']
    } else {
        seq![c]
    }
}

/// A whole value, written character by character.
pub open spec fn escape(s: Seq<char>) -> Seq<char>
    decreases s.len(),
{
    if s.len() == 0 {
        Seq::empty()
    } else {
        escape_char(s[0]) + escape(s.drop_first())
    }
}

/// Escaping distributes over appending one character at the end.
proof fn lemma_escape_push(t: Seq<char>, c: char)
    ensures
        escape(t.push(c)) == escape(t) + escape_char(c),
    decreases t.len(),
{
    if t.len() == 0 {
        assert(t.push(c)[0] == c);
        assert(t.push(c).len() == 1);
        assert(t.push(c).drop_first() =~= Seq::<char>::empty());
        assert(escape(Seq::<char>::empty()) =~= Seq::<char>::empty());
        assert(escape(t.push(c)) == escape_char(c) + escape(t.push(c).drop_first()));
        assert(escape(t.push(c)) =~= escape(t) + escape_char(c));
    } else {
        assert(t.push(c).drop_first() =~= t.drop_first().push(c));
        lemma_escape_push(t.drop_first(), c);
        assert(escape(t.push(c)) == escape_char(t[0]) + (escape(t.drop_first()) + escape_char(c)));
        assert(escape_char(t[0]) + (escape(t.drop_first()) + escape_char(c)) =~= (escape_char(t[0])
            + escape(t.drop_first())) + escape_char(c));
    }
}

/// Appends `escape(value@)` to `out`.
fn append_escaped(out: &mut String, value: &String)
    ensures
        final(out)@ == old(out)@ + escape(value@),
{
    let v = str_to_chars(value.as_str());
    let mut i: usize = 0;
    proof {
        assert(value@.take(0) =~= Seq::<char>::empty());
        assert(old(out)@ + escape(value@.take(0)) =~= old(out)@);
    }
    while i < v.len()
        invariant
            v@ == value@,
            i <= v@.len(),
            out@ == old(out)@ + escape(value@.take(i as int)),
        decreases v@.len() - i,
    {
        let c = v[i];
        if c == '"' {
            out.append("\\\"");
            proof {
                reveal_strlit("\\\"");
                assert("\\\""@ =~= escape_char(c));
            }
        } else if c == '\\' {
            out.append("\\\\");
            proof {
                reveal_strlit("\\\\");
                assert("\\\\"@ =~= escape_char(c));
            }
        } else if c == '\n' {
            out.append("\\n");
            proof {
                reveal_strlit("\\n");
                assert("\\n"@ =~= escape_char(c));
            }
        } else if c == '\r' {
            out.append("\\r");
            proof {
                reveal_strlit("\\r");
                assert("\\r"@ =~= escape_char(c));
            }
        } else if c == '\t' {
            out.append("\\t");
            proof {
                reveal_strlit("\\t");
                assert("\\t"@ =~= escape_char(c));
            }
        } else {
            push_char(out, c);
            proof {
                assert(seq![c] =~= escape_char(c));
            }
        }
        proof {
            lemma_escape_push(value@.take(i as int), value@[i as int]);
            assert(value@.take(i as int).push(value@[i as int]) =~= value@.take(i + 1 as int));
            assert((old(out)@ + escape(value@.take(i as int))) + escape_char(value@[i as int])
                =~= old(out)@ + (escape(value@.take(i as int)) + escape_char(value@[i as int])));
        }
        i = i + 1;
    }
    proof {
        assert(value@.take(v@.len() as int) =~= value@);
    }
}

/// The exact text of a configuration file: one `key = "value"` line per
/// field, values escaped by [`escape`].
pub open spec fn config_toml(c: ConfigV) -> Seq<char> {
    "macros_folder = \""@ + escape(c.macros_folder) + "\"\n"@ + "templates_folder = \""@ + escape(
        c.templates_folder,
    ) + "\"\n"@ + "outputs_folder = \""@ + escape(c.outputs_folder) + "\"\n"@
        + "root_template = \""@ + escape(c.root_template) + "\"\n"@
}

/// The configuration serialized to its file format: exactly
/// [`config_toml`] of its value.
pub fn config_to_toml(config: &Config) -> (r: String)
    ensures
        r@ == config_toml(config@),
{
    let mut out = String::new();
    out.append("macros_folder = \"");
    append_escaped(&mut out, &config.macros_folder);
    out.append("\"\n");
    out.append("templates_folder = \"");
    append_escaped(&mut out, &config.templates_folder);
    out.append("\"\n");
    out.append("outputs_folder = \"");
    append_escaped(&mut out, &config.outputs_folder);
    out.append("\"\n");
    out.append("root_template = \"");
    append_escaped(&mut out, &config.root_template);
    out.append("\"\n");
    out
}

/// The default configuration together with its serialized form, ready to be
/// written to a fresh project's configuration file.
pub fn create_defualt_config() -> (r: (Config, String))
    ensures
        r.0@ == default_config(),
        r.1@ == config_toml(default_config()),
{
    let config = Config::default();
    let text = config_to_toml(&config);
    (config, text)
}

} // verus!

verus! {

/// Whitespace inside a line: space, tab, and carriage return (so files with
/// CRLF line endings read the same as files with LF endings).
pub open spec fn is_ws(c: char) -> bool {
    c == ' ' || c == '\t' || c == '\r'
}

/// A character allowed in a bare key: ASCII letters, digits, `_` and `-`.
pub open spec fn is_key_char(c: char) -> bool {
    (97 <= c as u32 && c as u32 <= 122) || (65 <= c as u32 && c as u32 <= 90) || (48 <= c as u32
        && c as u32 <= 57) || c as u32 == 95 || c as u32 == 45
}

/// The first position at or after `i` holding no line whitespace.
pub open spec fn skip_ws(s: Seq<char>, i: int) -> int
    decreases s.len() - i,
{
    if 0 <= i < s.len() && is_ws(s[i]) {
        skip_ws(s, i + 1)
    } else {
        i
    }
}

/// [`skip_ws`] moves forward, stays inside the text, and stops on the first
/// non-whitespace character.
proof fn lemma_skip_ws(s: Seq<char>, i: int)
    requires
        0 <= i <= s.len(),
    ensures
        i <= skip_ws(s, i) <= s.len(),
        skip_ws(s, i) < s.len() ==> !is_ws(s[skip_ws(s, i)]),
    decreases s.len() - i,
{
    if i < s.len() && is_ws(s[i]) {
        lemma_skip_ws(s, i + 1);
    }
}

/// The position of the next line feed at or after `i`, or the length.
pub open spec fn skip_to_eol(s: Seq<char>, i: int) -> int
    decreases s.len() - i,
{
    if 0 <= i < s.len() && s[i] != '\n' {
        skip_to_eol(s, i + 1)
    } else {
        i
    }
}

/// [`skip_to_eol`] moves forward, stays inside the text, and stops on a
/// line feed when it stops before the end.
proof fn lemma_skip_to_eol(s: Seq<char>, i: int)
    requires
        0 <= i <= s.len(),
    ensures
        i <= skip_to_eol(s, i) <= s.len(),
        skip_to_eol(s, i) < s.len() ==> s[skip_to_eol(s, i)] == '\n',
    decreases s.len() - i,
{
    if i < s.len() && s[i] != '\n' {
        lemma_skip_to_eol(s, i + 1);
    }
}

/// The end of the run of key characters starting at `i`.
pub open spec fn scan_key(s: Seq<char>, i: int) -> int
    decreases s.len() - i,
{
    if 0 <= i < s.len() && is_key_char(s[i]) {
        scan_key(s, i + 1)
    } else {
        i
    }
}

/// [`scan_key`] moves forward and stays inside the text.
proof fn lemma_scan_key(s: Seq<char>, i: int)
    requires
        0 <= i <= s.len(),
    ensures
        i <= scan_key(s, i) <= s.len(),
    decreases s.len() - i,
{
    if i < s.len() && is_key_char(s[i]) {
        lemma_scan_key(s, i + 1);
    }
}

/// The character an escape code stands for, if the code is recognized.
pub open spec fn unescape_char(c: char) -> Option<char> {
    if c == '"' {
        Some('"')
    } else if c == '\\' {
        Some('\\')
    } else if c == 'n' {
        Some('\n')
    } else if c == 'r' {
        Some('\r')
    } else if c == 't' {
        Some('\t')
    } else {
        None
    }
}

/// Reads a quoted value from just after its opening quote: the value's
/// characters, unescaped, and the position just after the closing quote.
/// `None` on an unknown escape, a raw line feed, or a missing closing quote.
pub open spec fn scan_string(s: Seq<char>, i: int) -> Option<(Seq<char>, int)>
    decreases s.len() - i,
{
    if i < 0 || i >= s.len() {
        None
    } else if s[i] == '"' {
        Some((Seq::empty(), i + 1))
    } else if s[i] == '\n' {
        None
    } else if s[i] == '\\' {
        if i + 1 >= s.len() {
            None
        } else {
            match unescape_char(s[i + 1]) {
                None => None,
                Some(c) => match scan_string(s, i + 2) {
                    None => None,
                    Some(t) => Some((seq![c] + t.0, t.1)),
                },
            }
        }
    } else {
        match scan_string(s, i + 1) {
            None => None,
            Some(t) => Some((seq![s[i]] + t.0, t.1)),
        }
    }
}

/// A successful [`scan_string`] always moves forward and stays inside the
/// text.
proof fn lemma_scan_string(s: Seq<char>, i: int)
    ensures
        scan_string(s, i) is Some ==> i < scan_string(s, i).unwrap().1 <= s.len(),
    decreases s.len() - i,
{
    if 0 <= i < s.len() {
        if s[i] == '"' {
        } else if s[i] == '\n' {
        } else if s[i] == '\\' {
            if i + 1 < s.len() {
                lemma_scan_string(s, i + 2);
            }
        } else {
            lemma_scan_string(s, i + 1);
        }
    }
}

/// The fields collected while reading a configuration file, each `Some`
/// once its key has been seen.
pub struct AccV {
    pub macros_folder: Option<Seq<char>>,
    pub templates_folder: Option<Seq<char>>,
    pub outputs_folder: Option<Seq<char>>,
    pub root_template: Option<Seq<char>>,
}

/// No field seen yet.
pub open spec fn empty_acc() -> AccV {
    AccV { macros_folder: None, templates_folder: None, outputs_folder: None, root_template: None }
}

/// Records one `key = "value"` line: a known key fills its field, and
/// filling a field twice is an error; an unknown key is ignored.
pub open spec fn set_key(acc: AccV, key: Seq<char>, value: Seq<char>) -> Option<AccV> {
    if key == "macros_folder"@ {
        if acc.macros_folder is Some {
            None
        } else {
            Some(AccV { macros_folder: Some(value), ..acc })
        }
    } else if key == "templates_folder"@ {
        if acc.templates_folder is Some {
            None
        } else {
            Some(AccV { templates_folder: Some(value), ..acc })
        }
    } else if key == "outputs_folder"@ {
        if acc.outputs_folder is Some {
            None
        } else {
            Some(AccV { outputs_folder: Some(value), ..acc })
        }
    } else if key == "root_template"@ {
        if acc.root_template is Some {
            None
        } else {
            Some(AccV { root_template: Some(value), ..acc })
        }
    } else {
        Some(acc)
    }
}

/// Reads the text from position `i` line by line: blank lines and `#`
/// comments are skipped, every other line must be `key = "value"` with
/// nothing but whitespace after the closing quote.
pub open spec fn parse_lines(s: Seq<char>, i: int, acc: AccV) -> Option<AccV>
    decreases s.len() - i,
    when 0 <= i <= s.len()
    via parse_lines_decreases
{
    let j = skip_ws(s, i);
    if j >= s.len() {
        Some(acc)
    } else if s[j] == '\n' {
        parse_lines(s, j + 1, acc)
    } else if s[j] == '#' {
        let k = skip_to_eol(s, j);
        if k >= s.len() {
            Some(acc)
        } else {
            parse_lines(s, k + 1, acc)
        }
    } else {
        let k = scan_key(s, j);
        if k == j {
            None
        } else {
            let key = s.subrange(j, k);
            let m = skip_ws(s, k);
            if m >= s.len() || s[m] != '=' {
                None
            } else {
                let q = skip_ws(s, m + 1);
                if q >= s.len() || s[q] != '"' {
                    None
                } else {
                    match scan_string(s, q + 1) {
                        None => None,
                        Some(t) => match set_key(acc, key, t.0) {
                            None => None,
                            Some(acc2) => {
                                let e = skip_ws(s, t.1);
                                if e >= s.len() {
                                    Some(acc2)
                                } else if s[e] != '\n' {
                                    None
                                } else {
                                    parse_lines(s, e + 1, acc2)
                                }
                            },
                        },
                    }
                }
            }
        }
    }
}

#[via_fn]
proof fn parse_lines_decreases(s: Seq<char>, i: int, acc: AccV) {
    lemma_skip_ws(s, i);
    let j = skip_ws(s, i);
    if j < s.len() {
        if s[j] == '#' {
            lemma_skip_to_eol(s, j);
        } else if s[j] != '\n' {
            let k = scan_key(s, j);
            lemma_scan_key(s, j);
            if k != j {
                let m = skip_ws(s, k);
                lemma_skip_ws(s, k);
                if m < s.len() && s[m] == '=' {
                    lemma_skip_ws(s, m + 1);
                    let q = skip_ws(s, m + 1);
                    if q < s.len() && s[q] == '"' {
                        lemma_scan_string(s, q + 1);
                        if scan_string(s, q + 1) is Some {
                            lemma_skip_ws(s, scan_string(s, q + 1).unwrap().1);
                        }
                    }
                }
            }
        }
    }
}

/// What a configuration file's text means: `Some` exactly when every line
/// reads cleanly and each of the four fields was given exactly once.
pub open spec fn parse_config(s: Seq<char>) -> Option<ConfigV> {
    match parse_lines(s, 0, empty_acc()) {
        None => None,
        Some(acc) => if acc.macros_folder is Some && acc.templates_folder is Some
            && acc.outputs_folder is Some && acc.root_template is Some {
            Some(
                ConfigV {
                    macros_folder: acc.macros_folder.unwrap(),
                    templates_folder: acc.templates_folder.unwrap(),
                    outputs_folder: acc.outputs_folder.unwrap(),
                    root_template: acc.root_template.unwrap(),
                },
            )
        } else {
            None
        },
    }
}

} // verus!

verus! {

/// Exactly [`is_ws`].
fn is_ws_exec(c: char) -> (r: bool)
    ensures
        r == is_ws(c),
{
    c == ' ' || c == '\t' || c == '\r'
}

/// Exactly [`is_key_char`].
fn is_key_char_exec(c: char) -> (r: bool)
    ensures
        r == is_key_char(c),
{
    let u = c as u32;
    (97 <= u && u <= 122) || (65 <= u && u <= 90) || (48 <= u && u <= 57) || u == 95 || u == 45
}

/// Exactly [`skip_ws`].
fn exec_skip_ws(v: &Vec<char>, i: usize) -> (r: usize)
    requires
        i <= v@.len(),
    ensures
        r as int == skip_ws(v@, i as int),
        i <= r <= v@.len(),
{
    let mut r = i;
    while r < v.len() && is_ws_exec(v[r])
        invariant
            i <= r <= v@.len(),
            skip_ws(v@, i as int) == skip_ws(v@, r as int),
        decreases v@.len() - r,
    {
        r = r + 1;
    }
    r
}

/// Exactly [`skip_to_eol`].
fn exec_skip_to_eol(v: &Vec<char>, i: usize) -> (r: usize)
    requires
        i <= v@.len(),
    ensures
        r as int == skip_to_eol(v@, i as int),
        i <= r <= v@.len(),
{
    let mut r = i;
    while r < v.len() && v[r] != '\n'
        invariant
            i <= r <= v@.len(),
            skip_to_eol(v@, i as int) == skip_to_eol(v@, r as int),
        decreases v@.len() - r,
    {
        r = r + 1;
    }
    r
}

/// Exactly [`scan_key`].
fn exec_scan_key(v: &Vec<char>, i: usize) -> (r: usize)
    requires
        i <= v@.len(),
    ensures
        r as int == scan_key(v@, i as int),
        i <= r <= v@.len(),
{
    let mut r = i;
    while r < v.len() && is_key_char_exec(v[r])
        invariant
            i <= r <= v@.len(),
            scan_key(v@, i as int) == scan_key(v@, r as int),
        decreases v@.len() - r,
    {
        r = r + 1;
    }
    r
}

/// Exactly [`scan_string`]: the unescaped value and the position after the
/// closing quote, or `None` where the text is no well-formed quoted value.
fn exec_scan_string(v: &Vec<char>, start: usize) -> (r: Option<(Vec<char>, usize)>)
    requires
        start <= v@.len(),
    ensures
        match r {
            Some(t) => scan_string(v@, start as int) == Some((t.0@, t.1 as int)) && start < t.1
                <= v@.len(),
            None => scan_string(v@, start as int) is None,
        },
{
    let mut out: Vec<char> = Vec::new();
    let mut i = start;
    proof {
        assert(out@ =~= Seq::<char>::empty());
    }
    loop
        invariant
            start <= i <= v@.len(),
            scan_string(v@, start as int) == (match scan_string(v@, i as int) {
                None => None::<(Seq<char>, int)>,
                Some(t) => Some((out@ + t.0, t.1)),
            }),
        decreases v@.len() - i,
    {
        if i >= v.len() {
            return None;
        }
        let c = v[i];
        if c == '"' {
            proof {
                assert(scan_string(v@, i as int) == Some((Seq::<char>::empty(), i + 1 as int)));
                assert(out@ + Seq::<char>::empty() =~= out@);
            }
            proof {
                lemma_scan_string(v@, start as int);
            }
            return Some((out, i + 1));
        }
        if c == '\n' {
            return None;
        }
        if c == '\\' {
            if i + 1 >= v.len() {
                return None;
            }
            let e = v[i + 1];
            let u: Option<char> = if e == '"' {
                Some('"')
            } else if e == '\\' {
                Some('\\')
            } else if e == 'n' {
                Some('\n')
            } else if e == 'r' {
                Some('\r')
            } else if e == 't' {
                Some('\t')
            } else {
                None
            };
            proof {
                assert(u == unescape_char(v@[i + 1 as int]));
            }
            match u {
                None => {
                    return None;
                },
                Some(uc) => {
                    let ghost pre = out@;
                    out.push(uc);
                    proof {
                        if scan_string(v@, i + 2 as int) is Some {
                            let t = scan_string(v@, i + 2 as int).unwrap();
                            assert(scan_string(v@, i as int) == Some((seq![uc] + t.0, t.1)));
                            assert(pre + (seq![uc] + t.0) =~= out@ + t.0);
                        }
                    }
                    i = i + 2;
                },
            }
        } else {
            let ghost pre = out@;
            out.push(c);
            proof {
                if scan_string(v@, i + 1 as int) is Some {
                    let t = scan_string(v@, i + 1 as int).unwrap();
                    assert(scan_string(v@, i as int) == Some((seq![c] + t.0, t.1)));
                    assert(pre + (seq![c] + t.0) =~= out@ + t.0);
                }
            }
            i = i + 1;
        }
    }
}

/// Whether the characters of `v` between `from` and `to` spell `lit`.
fn chars_eq_str(v: &Vec<char>, from: usize, to: usize, lit: &str) -> (r: bool)
    requires
        from <= to <= v@.len(),
    ensures
        r == (v@.subrange(from as int, to as int) == lit@),
{
    let n = lit.unicode_len();
    if n != to - from {
        proof {
            assert(v@.subrange(from as int, to as int).len() == to - from);
        }
        return false;
    }
    let mut i: usize = 0;
    while i < n
        invariant
            n == lit@.len(),
            n == to - from,
            from <= to <= v@.len(),
            i <= n,
            forall|j: int| 0 <= j < i ==> v@[from + j] == lit@[j],
        decreases n - i,
    {
        let a = v[from + i];
        let b = lit.get_char(i);
        if a != b {
            proof {
                assert(v@.subrange(from as int, to as int)[i as int] == v@[from + i]);
            }
            return false;
        }
        i = i + 1;
    }
    proof {
        assert(v@.subrange(from as int, to as int) =~= lit@);
    }
    true
}

/// The view of a field not yet seen or already collected.
pub open spec fn opt_str_view(o: Option<String>) -> Option<Seq<char>> {
    match o {
        None => None,
        Some(x) => Some(x@),
    }
}

/// The accumulator the four collected fields stand for.
pub open spec fn acc_of(
    m: Option<String>,
    t: Option<String>,
    o: Option<String>,
    rt: Option<String>,
) -> AccV {
    AccV {
        macros_folder: opt_str_view(m),
        templates_folder: opt_str_view(t),
        outputs_folder: opt_str_view(o),
        root_template: opt_str_view(rt),
    }
}

/// The configuration a file's text holds: exactly what [`parse_config`]
/// says of it, with `Err(ParseError)` exactly when the text means nothing.
pub fn config_from_toml(s: &str) -> (r: Result<Config, Error>)
    ensures
        r is Ok ==> parse_config(s@) == Some(r.unwrap()@),
        r is Err ==> r == Err::<Config, Error>(Error::ParseError) && parse_config(s@) is None,
{
    let v = str_to_chars(s);
    let mut macros_v: Option<String> = None;
    let mut templates_v: Option<String> = None;
    let mut outputs_v: Option<String> = None;
    let mut root_v: Option<String> = None;
    let mut i: usize = 0;
    loop
        invariant
            v@ == s@,
            i <= v@.len(),
            parse_lines(s@, 0, empty_acc()) == parse_lines(
                s@,
                i as int,
                acc_of(macros_v, templates_v, outputs_v, root_v),
            ),
        decreases v@.len() - i,
    {
        let ghost acc = acc_of(macros_v, templates_v, outputs_v, root_v);
        let j = exec_skip_ws(&v, i);
        if j >= v.len() {
            proof {
                assert(parse_lines(s@, i as int, acc) == Some(acc));
            }
            if macros_v.is_some() && templates_v.is_some() && outputs_v.is_some()
                && root_v.is_some() {
                let config = Config {
                    macros_folder: macros_v.unwrap(),
                    templates_folder: templates_v.unwrap(),
                    outputs_folder: outputs_v.unwrap(),
                    root_template: root_v.unwrap(),
                };
                return Ok(config);
            } else {
                return Err(Error::ParseError);
            }
        }
        let c = v[j];
        if c == '\n' {
            proof {
                assert(parse_lines(s@, i as int, acc) == parse_lines(s@, j + 1 as int, acc));
            }
            i = j + 1;
        } else if c == '#' {
            let k = exec_skip_to_eol(&v, j);
            proof {
                lemma_skip_to_eol(s@, j as int);
                assert(k < v@.len() ==> s@[k as int] == '\n');
                assert(skip_ws(s@, k as int) == k as int);
                if k < v.len() {
                    assert(parse_lines(s@, i as int, acc) == parse_lines(s@, k + 1 as int, acc));
                    assert(parse_lines(s@, k as int, acc) == parse_lines(s@, k + 1 as int, acc));
                } else {
                    assert(parse_lines(s@, i as int, acc) == Some(acc));
                    assert(parse_lines(s@, k as int, acc) == Some(acc));
                }
            }
            i = k;
        } else {
            let k = exec_scan_key(&v, j);
            if k == j {
                proof {
                    assert(parse_lines(s@, i as int, acc) is None);
                }
                return Err(Error::ParseError);
            }
            let m = exec_skip_ws(&v, k);
            if m >= v.len() {
                proof {
                    assert(parse_lines(s@, i as int, acc) is None);
                }
                return Err(Error::ParseError);
            }
            if v[m] != '=' {
                proof {
                    assert(parse_lines(s@, i as int, acc) is None);
                }
                return Err(Error::ParseError);
            }
            let q = exec_skip_ws(&v, m + 1);
            if q >= v.len() {
                proof {
                    assert(parse_lines(s@, i as int, acc) is None);
                }
                return Err(Error::ParseError);
            }
            if v[q] != '"' {
                proof {
                    assert(parse_lines(s@, i as int, acc) is None);
                }
                return Err(Error::ParseError);
            }
            match exec_scan_string(&v, q + 1) {
                None => {
                    proof {
                        assert(parse_lines(s@, i as int, acc) is None);
                    }
                    return Err(Error::ParseError);
                },
                Some((value, p)) => {
                    let e = exec_skip_ws(&v, p);
                    if e < v.len() && v[e] != '\n' {
                        proof {
                            assert(parse_lines(s@, i as int, acc) is None);
                        }
                        return Err(Error::ParseError);
                    }
                    let ghost key = s@.subrange(j as int, k as int);
                    if chars_eq_str(&v, j, k, "macros_folder") {
                        if macros_v.is_some() {
                            proof {
                                assert(set_key(acc, key, value@) is None);
                                assert(parse_lines(s@, i as int, acc) is None);
                            }
                            return Err(Error::ParseError);
                        }
                        macros_v = Some(chars_to_string(&value));
                    } else if chars_eq_str(&v, j, k, "templates_folder") {
                        if templates_v.is_some() {
                            proof {
                                assert(set_key(acc, key, value@) is None);
                                assert(parse_lines(s@, i as int, acc) is None);
                            }
                            return Err(Error::ParseError);
                        }
                        templates_v = Some(chars_to_string(&value));
                    } else if chars_eq_str(&v, j, k, "outputs_folder") {
                        if outputs_v.is_some() {
                            proof {
                                assert(set_key(acc, key, value@) is None);
                                assert(parse_lines(s@, i as int, acc) is None);
                            }
                            return Err(Error::ParseError);
                        }
                        outputs_v = Some(chars_to_string(&value));
                    } else if chars_eq_str(&v, j, k, "root_template") {
                        if root_v.is_some() {
                            proof {
                                assert(set_key(acc, key, value@) is None);
                                assert(parse_lines(s@, i as int, acc) is None);
                            }
                            return Err(Error::ParseError);
                        }
                        root_v = Some(chars_to_string(&value));
                    }
                    proof {
                        let acc2 = acc_of(macros_v, templates_v, outputs_v, root_v);
                        assert(set_key(acc, key, value@) == Some(acc2));
                        if e >= v.len() {
                            assert(parse_lines(s@, i as int, acc) == Some(acc2));
                            assert(skip_ws(s@, e as int) == e as int);
                            assert(parse_lines(s@, e as int, acc2) == Some(acc2));
                        } else {
                            assert(parse_lines(s@, i as int, acc) == parse_lines(
                                s@,
                                e + 1 as int,
                                acc2,
                            ));
                        }
                    }
                    if e >= v.len() {
                        i = e;
                    } else {
                        i = e + 1;
                    }
                },
            }
        }
    }
}

} // verus!

verus! {

/// One `key = "value"` line as the writer lays it out.
pub open spec fn line_of(key: Seq<char>, value: Seq<char>) -> Seq<char> {
    key + " = \""@ + escape(value) + "\"\n"@
}

/// The length of [`line_of`]: the key, ` = "` before the value, and `"`
/// plus the line feed after it.
pub open spec fn line_len(key: Seq<char>, value: Seq<char>) -> int {
    key.len() + 4 + escape(value).len() + 2 as int
}

/// Reading an escaped value back: [`scan_string`] started just after the
/// opening quote returns exactly the value that was escaped, stopping just
/// after the closing quote.
proof fn lemma_scan_escaped(s: Seq<char>, i: int, value: Seq<char>)
    requires
        0 <= i,
        i + escape(value).len() + 1 <= s.len(),
        s.subrange(i, i + escape(value).len()) == escape(value),
        s[i + escape(value).len()] == '"',
    ensures
        scan_string(s, i) == Some((value, i + escape(value).len() + 1)),
    decreases value.len(),
{
    let ev = escape(value);
    assert forall|t: int| i <= t < i + ev.len() implies #[trigger] s[t] == ev[t - i] by {
        assert(s.subrange(i, i + ev.len())[t - i] == s[t]);
    }
    if value.len() == 0 {
        assert(ev.len() == 0);
        assert(s[i] == '"');
    } else {
        let c = value[0];
        let rest = value.drop_first();
        let ec = escape_char(c);
        let erest = escape(rest);
        assert(ev == ec + erest);
        if c == '"' || c == '\\' || c == '\n' || c == '\r' || c == '\t' {
            assert(ec.len() == 2 && ec[0] == '\\');
            assert(s[i] == ev[0] && ev[0] == ec[0]);
            assert(s[i + 1] == ev[1] && ev[1] == ec[1]);
            assert(unescape_char(ec[1]) == Some(c));
            assert(s.subrange(i + 2, i + 2 + erest.len()) =~= erest) by {
                assert forall|t: int| 0 <= t < erest.len() implies s.subrange(
                    i + 2,
                    i + 2 + erest.len(),
                )[t] == erest[t] by {
                    assert(s.subrange(i + 2, i + 2 + erest.len())[t] == s[i + 2 + t]);
                    assert(ev[2 + t] == erest[t]);
                }
            }
            assert(s[i + 2 + erest.len()] == '"');
            lemma_scan_escaped(s, i + 2, rest);
            assert(scan_string(s, i) == Some((seq![c] + rest, i + 2 + erest.len() + 1)));
            assert(seq![c] + rest =~= value);
        } else {
            assert(ec =~= seq![c]);
            assert(s[i] == ev[0] && ev[0] == c);
            assert(s.subrange(i + 1, i + 1 + erest.len()) =~= erest) by {
                assert forall|t: int| 0 <= t < erest.len() implies s.subrange(
                    i + 1,
                    i + 1 + erest.len(),
                )[t] == erest[t] by {
                    assert(s.subrange(i + 1, i + 1 + erest.len())[t] == s[i + 1 + t]);
                    assert(ev[1 + t] == erest[t]);
                }
            }
            assert(s[i + 1 + erest.len()] == '"');
            lemma_scan_escaped(s, i + 1, rest);
            assert(scan_string(s, i) == Some((seq![c] + rest, i + 1 + erest.len() + 1)));
            assert(seq![c] + rest =~= value);
        }
    }
}

/// [`scan_key`] consumes exactly a run of `n` key characters.
proof fn lemma_scan_key_run(s: Seq<char>, i: int, n: int)
    requires
        0 <= i,
        0 <= n,
        i + n <= s.len(),
        forall|t: int| i <= t < i + n ==> is_key_char(#[trigger] s[t]),
        i + n == s.len() || !is_key_char(s[i + n]),
    ensures
        scan_key(s, i) == i + n,
    decreases n,
{
    if n == 0 {
    } else {
        assert(is_key_char(s[i]));
        lemma_scan_key_run(s, i + 1, n - 1);
    }
}

/// Reading one written line: from its start, [`parse_lines`] records the
/// line's key and value and continues right after the line's end.
proof fn lemma_parse_kv_line(s: Seq<char>, i: int, key: Seq<char>, value: Seq<char>, acc: AccV)
    requires
        0 <= i,
        key.len() > 0,
        forall|t: int| 0 <= t < key.len() ==> is_key_char(key[t]),
        i + line_len(key, value) <= s.len(),
        s.subrange(i, i + line_len(key, value)) == line_of(key, value),
    ensures
        parse_lines(s, i, acc) == match set_key(acc, key, value) {
            None => None,
            Some(acc2) => parse_lines(s, i + line_len(key, value), acc2),
        },
{
    reveal_strlit(" = \"");
    reveal_strlit("\"\n");
    let ln = line_of(key, value);
    let ll = line_len(key, value);
    let kl = key.len() as int;
    let el = escape(value).len() as int;
    assert(ln.len() == ll);
    assert forall|t: int| i <= t < i + ll implies #[trigger] s[t] == ln[t - i] by {
        assert(s.subrange(i, i + ll)[t - i] == s[t]);
    }
    assert forall|t: int| 0 <= t < kl implies ln[t] == key[t] by {}
    assert(ln[kl] == ' ' && ln[kl + 1] == '=' && ln[kl + 2] == ' ' && ln[kl + 3] == '"');
    assert(s[i + kl] == ' ' && s[i + kl + 1] == '=' && s[i + kl + 2] == ' ' && s[i + kl + 3]
        == '"');
    assert forall|t: int| 0 <= t < el implies ln[kl + 4 + t] == escape(value)[t] by {}
    assert(ln[kl + 4 + el] == '"');
    assert(ln[kl + 4 + el + 1] == '\n');
    assert(s[i + kl + 4 + el] == '"');
    assert(s[i + kl + 4 + el + 1] == '\n');
    assert forall|t: int| i <= t < i + kl implies is_key_char(#[trigger] s[t]) by {
        assert(s[t] == ln[t - i]);
        assert(ln[t - i] == key[t - i]);
    }
    // The line starts on a key character, which is no whitespace, comment
    // mark, or line feed.
    assert(is_key_char(s[i]));
    assert(!is_ws(s[i]) && s[i] != '\n' && s[i] != '#');
    assert(skip_ws(s, i) == i);
    // The key runs to the space before the equals sign.
    lemma_scan_key_run(s, i, kl);
    assert(scan_key(s, i) == i + kl);
    assert(s.subrange(i, i + kl) =~= key);
    // One space, the equals sign, one space, the opening quote.
    assert(skip_ws(s, i + kl + 1) == i + kl + 1);
    assert(skip_ws(s, i + kl) == skip_ws(s, i + kl + 1));
    assert(skip_ws(s, i + kl + 3) == i + kl + 3);
    assert(skip_ws(s, i + kl + 2) == skip_ws(s, i + kl + 3));
    // The escaped value and its closing quote.
    assert(s.subrange(i + kl + 4, i + kl + 4 + el) =~= escape(value)) by {
        assert forall|t: int| 0 <= t < el implies s.subrange(i + kl + 4, i + kl + 4 + el)[t]
            == escape(value)[t] by {
            assert(s.subrange(i + kl + 4, i + kl + 4 + el)[t] == s[i + kl + 4 + t]);
        }
    }
    lemma_scan_escaped(s, i + kl + 4, value);
    assert(scan_string(s, i + kl + 4) == Some((value, i + kl + 4 + el + 1)));
    // The line feed that ends the line.
    assert(skip_ws(s, i + kl + 4 + el + 1) == i + kl + 4 + el + 1);
    assert(s[i + kl + 4 + el + 1] == '\n');
}

} // verus!

verus! {

/// Writing a configuration and reading the text back restores all four
/// fields exactly, whatever characters the fields hold.
pub proof fn lemma_config_roundtrip(c: ConfigV)
    ensures
        parse_config(config_toml(c)) == Some(c),
{
    reveal_strlit("macros_folder = \"");
    reveal_strlit("templates_folder = \"");
    reveal_strlit("outputs_folder = \"");
    reveal_strlit("root_template = \"");
    reveal_strlit("macros_folder");
    reveal_strlit("templates_folder");
    reveal_strlit("outputs_folder");
    reveal_strlit("root_template");
    reveal_strlit(" = \"");
    reveal_strlit("\"\n");
    let s = config_toml(c);
    let k1 = "macros_folder"@;
    let k2 = "templates_folder"@;
    let k3 = "outputs_folder"@;
    let k4 = "root_template"@;
    let l1 = line_of(k1, c.macros_folder);
    let l2 = line_of(k2, c.templates_folder);
    let l3 = line_of(k3, c.outputs_folder);
    let l4 = line_of(k4, c.root_template);
    assert("macros_folder = \""@ =~= k1 + " = \""@);
    assert("templates_folder = \""@ =~= k2 + " = \""@);
    assert("outputs_folder = \""@ =~= k3 + " = \""@);
    assert("root_template = \""@ =~= k4 + " = \""@);
    assert(s =~= l1 + l2 + l3 + l4);
    let o2 = line_len(k1, c.macros_folder);
    let o3 = o2 + line_len(k2, c.templates_folder);
    let o4 = o3 + line_len(k3, c.outputs_folder);
    let o5 = o4 + line_len(k4, c.root_template);
    assert(l1.len() == line_len(k1, c.macros_folder));
    assert(l2.len() == line_len(k2, c.templates_folder));
    assert(l3.len() == line_len(k3, c.outputs_folder));
    assert(l4.len() == line_len(k4, c.root_template));
    assert(s.len() == o5);
    assert(s.subrange(0, o2) =~= l1);
    assert(s.subrange(o2, o3) =~= l2);
    assert(s.subrange(o3, o4) =~= l3);
    assert(s.subrange(o4, o5) =~= l4);
    assert(forall|t: int| 0 <= t < k1.len() ==> is_key_char(#[trigger] k1[t]));
    assert(forall|t: int| 0 <= t < k2.len() ==> is_key_char(#[trigger] k2[t]));
    assert(forall|t: int| 0 <= t < k3.len() ==> is_key_char(#[trigger] k3[t]));
    assert(forall|t: int| 0 <= t < k4.len() ==> is_key_char(#[trigger] k4[t]));
    let acc0 = empty_acc();
    let acc1 = AccV { macros_folder: Some(c.macros_folder), ..acc0 };
    let acc2 = AccV { templates_folder: Some(c.templates_folder), ..acc1 };
    let acc3 = AccV { outputs_folder: Some(c.outputs_folder), ..acc2 };
    let acc4 = AccV { root_template: Some(c.root_template), ..acc3 };
    lemma_parse_kv_line(s, 0, k1, c.macros_folder, acc0);
    assert(set_key(acc0, k1, c.macros_folder) == Some(acc1));
    lemma_parse_kv_line(s, o2, k2, c.templates_folder, acc1);
    assert(set_key(acc1, k2, c.templates_folder) == Some(acc2));
    lemma_parse_kv_line(s, o3, k3, c.outputs_folder, acc2);
    assert(set_key(acc2, k3, c.outputs_folder) == Some(acc3));
    lemma_parse_kv_line(s, o4, k4, c.root_template, acc3);
    assert(set_key(acc3, k4, c.root_template) == Some(acc4));
    assert(skip_ws(s, o5) == o5);
    assert(parse_lines(s, o5, acc4) == Some(acc4));
    assert(parse_lines(s, 0, acc0) == Some(acc4));
    assert(parse_config(s) == Some(c));
}

} // verus!
