//! Output formats: how a variable is written as a line of an environment
//! file, of a shell script or of a makefile.

use crate::text::{
    append_str, char_is_space, ends_with, chars_end_with, from_chars, is_space, to_chars,
    uppercase, uppercase_of,
};
use vstd::prelude::*;

verus! {

/// How the characters of a value are escaped.
#[derive(Debug, Clone, Copy, PartialEq, Eq, Structural)]
pub enum Escape {
    /// Inside the double quotes of an environment file.
    Simple,
    /// Inside the double quotes of a shell assignment.
    Bash,
    /// In a makefile assignment.
    Make,
    /// In a makefile `$(eval ...)` statement.
    MakeEval,
}

/// What one character becomes under an escape.
pub open spec fn escaped_char(mode: Escape, c: char) -> Seq<char> {
    match mode {
        Escape::Simple => if c == '\\' {
            "\\\\"@
        } else if c == '"' {
            "\\\""@
        } else {
            seq![c]
        },
        Escape::Bash => if c == '\\' {
            "\\\\"@
        } else if c == '"' {
            "\\\""@
        } else if c == '$' {
            "\\$"@
        } else if c == '`' {
            "\\`"@
        } else if c == '\n' {
            "\\n"@
        } else if c == '\r' {
            "\\r"@
        } else if c == '\t' {
            "\\t"@
        } else if c == '!' {
            "\\!"@
        } else {
            seq![c]
        },
        Escape::Make => if c == '$' {
            "$$"@
        } else if c == '#' {
            "\\#"@
        } else if c == '\\' {
            "\\\\"@
        } else {
            seq![c]
        },
        Escape::MakeEval => if c == '$' {
            "$$$$"@
        } else if c == '#' {
            "\\#"@
        } else if c == '\\' {
            "\\\\"@
        } else {
            seq![c]
        },
    }
}

/// What a value becomes under an escape: each character escaped, in order.
pub open spec fn escaped(mode: Escape, s: Seq<char>) -> Seq<char>
    decreases s.len(),
{
    if s.len() == 0 {
        Seq::empty()
    } else {
        escaped(mode, s.drop_last()) + escaped_char(mode, s.last())
    }
}

/// The characters that make a shell quote a value.
pub open spec fn is_bash_special(c: char) -> bool {
    c == ' ' || c == '\t' || c == '\n' || c == '\r' || c == '$' || c == '`' || c == '\\' || c
        == '"' || c == '\'' || c == '&' || c == '|' || c == ';' || c == '<' || c == '>' || c == '('
        || c == ')' || c == '{' || c == '}' || c == '[' || c == ']' || c == '*' || c == '?' || c
        == '!' || c == '~' || c == '#' || c == '='
}

/// The characters that make an environment file quote a value.
pub open spec fn is_simple_special(c: char) -> bool {
    is_space(c) || c == '=' || c == '"' || c == '\''
}

/// Whether a value must be quoted in a shell assignment: it is empty or
/// holds a character that is special to the shell.
pub open spec fn bash_quoted(s: Seq<char>) -> bool {
    s.len() == 0 || exists|i: int| 0 <= i < s.len() && is_bash_special(#[trigger] s[i])
}

/// Whether a value must be quoted in an environment file: it is empty or
/// holds white space, `=` or a quote.
pub open spec fn simple_quoted(s: Seq<char>) -> bool {
    s.len() == 0 || exists|i: int| 0 <= i < s.len() && is_simple_special(#[trigger] s[i])
}

/// Whether an upper-case name is one of the variables that carry the
/// identity or name its key file.
pub open spec fn is_age_key_name(upper: Seq<char>) -> bool {
    upper == "DOTENVAGE_AGE_KEY"@ || upper == "AGE_KEY"@ || upper == "EKG_AGE_KEY"@ || upper
        == "AGE_KEY_NAME"@ || ends_with(upper, "_AGE_KEY_NAME"@)
}

/// How variables are dumped.
#[derive(Debug, Clone, Copy)]
pub struct DumpOptions {
    /// Quote and escape for a shell.
    pub bash: bool,
    /// Write makefile assignments.
    pub make: bool,
    /// Write makefile `$(eval ...)` statements.
    pub make_eval: bool,
    /// Put `export ` before each assignment.
    pub export: bool,
}

/// The word put before an assignment.
pub open spec fn export_prefix(export: bool) -> Seq<char> {
    if export {
        "export "@
    } else {
        ""@
    }
}

/// A variable as a makefile `$(eval ...)` statement.
pub open spec fn make_eval_line(key: Seq<char>, value: Seq<char>, export: bool) -> Seq<char> {
    "$(eval "@ + export_prefix(export) + key + " := "@ + escaped(Escape::MakeEval, value) + ")"@
}

/// A variable as a makefile assignment.
pub open spec fn make_line(key: Seq<char>, value: Seq<char>, export: bool) -> Seq<char> {
    export_prefix(export) + key + " := "@ + escaped(Escape::Make, value)
}

/// A variable as a shell assignment, quoted where it must be.
pub open spec fn bash_line(key: Seq<char>, value: Seq<char>, prefix: Seq<char>) -> Seq<char> {
    if bash_quoted(value) {
        prefix + key + "=\""@ + escaped(Escape::Bash, value) + "\""@
    } else {
        prefix + key + "="@ + value
    }
}

/// A variable as a line of an environment file, quoted where it must be.
pub open spec fn simple_line(key: Seq<char>, value: Seq<char>, prefix: Seq<char>) -> Seq<char> {
    if simple_quoted(value) {
        prefix + key + "=\""@ + escaped(Escape::Simple, value) + "\""@
    } else {
        prefix + key + "="@ + value
    }
}

/// A variable as a shell assignment or as a line of an environment file,
/// as the options ask.
pub open spec fn env_line(key: Seq<char>, value: Seq<char>, options: DumpOptions) -> Seq<char> {
    if options.bash || options.export {
        bash_line(key, value, export_prefix(options.export))
    } else {
        simple_line(key, value, export_prefix(options.export))
    }
}

/// A variable in the format that the options ask for.
pub open spec fn dump_line(key: Seq<char>, value: Seq<char>, options: DumpOptions) -> Seq<char> {
    if options.make_eval {
        make_eval_line(key, value, options.export)
    } else if options.make {
        make_line(key, value, options.export)
    } else {
        env_line(key, value, options)
    }
}

/// Whether a value is quoted when an environment file is written back: it
/// holds a blank, `$` or a line feed.
pub open spec fn stored_quoted(s: Seq<char>) -> bool {
    s.contains(' ') || s.contains('$') || s.contains('\n')
}

/// What one character of a stored value becomes inside quotes.
pub open spec fn stored_char(c: char) -> Seq<char> {
    if c == '"' {
        "\\\""@
    } else {
        seq![c]
    }
}

/// A stored value inside quotes: every double quote escaped.
pub open spec fn stored_escaped(s: Seq<char>) -> Seq<char>
    decreases s.len(),
{
    if s.len() == 0 {
        Seq::empty()
    } else {
        stored_escaped(s.drop_last()) + stored_char(s.last())
    }
}

/// A variable as a line of an environment file that is written back,
/// without its line ending.
pub open spec fn stored_line(key: Seq<char>, value: Seq<char>) -> Seq<char> {
    if stored_quoted(value) {
        key + "=\""@ + stored_escaped(value) + "\""@
    } else {
        key + "="@ + value
    }
}

/// The text that replaces `c` under an escape, where it is not kept as it
/// is.
fn replacement(mode: Escape, c: char) -> (r: Option<&'static str>)
    ensures
        match r {
            Some(t) => escaped_char(mode, c) == t@,
            None => escaped_char(mode, c) == seq![c],
        },
{
    match mode {
        Escape::Simple => if c == '\\' {
            Some("\\\\")
        } else if c == '"' {
            Some("\\\"")
        } else {
            None
        },
        Escape::Bash => if c == '\\' {
            Some("\\\\")
        } else if c == '"' {
            Some("\\\"")
        } else if c == '$' {
            Some("\\$")
        } else if c == '`' {
            Some("\\`")
        } else if c == '\n' {
            Some("\\n")
        } else if c == '\r' {
            Some("\\r")
        } else if c == '\t' {
            Some("\\t")
        } else if c == '!' {
            Some("\\!")
        } else {
            None
        },
        Escape::Make => if c == '$' {
            Some("$$")
        } else if c == '#' {
            Some("\\#")
        } else if c == '\\' {
            Some("\\\\")
        } else {
            None
        },
        Escape::MakeEval => if c == '$' {
            Some("$$$$")
        } else if c == '#' {
            Some("\\#")
        } else if c == '\\' {
            Some("\\\\")
        } else {
            None
        },
    }
}

/// The characters of `value` under an escape.
fn escape_chars(mode: Escape, value: &str) -> (r: Vec<char>)
    ensures
        r@ == escaped(mode, value@),
{
    let v = to_chars(value);
    let mut out: Vec<char> = Vec::new();
    let mut i: usize = 0;
    assert(v@.take(0) == Seq::<char>::empty());
    while i < v.len()
        invariant
            i <= v@.len(),
            out@ == escaped(mode, v@.take(i as int)),
        decreases v.len() - i,
    {
        proof {
            let part = v@.take(i + 1);
            assert(part.drop_last() == v@.take(i as int));
            assert(part.last() == v@[i as int]);
        }
        match replacement(mode, v[i]) {
            Some(t) => {
                append_str(&mut out, t);
            },
            None => {
                out.push(v[i]);
                assert(out@ == escaped(mode, v@.take(i as int)) + seq![v@[i as int]]);
            },
        }
        i += 1;
    }
    assert(v@.take(v@.len() as int) == v@);
    out
}

/// Whether `c` is special to the shell.
fn char_is_bash_special(c: char) -> (r: bool)
    ensures
        r == is_bash_special(c),
{
    c == ' ' || c == '\t' || c == '\n' || c == '\r' || c == '$' || c == '`' || c == '\\' || c
        == '"' || c == '\'' || c == '&' || c == '|' || c == ';' || c == '<' || c == '>' || c == '('
        || c == ')' || c == '{' || c == '}' || c == '[' || c == ']' || c == '*' || c == '?' || c
        == '!' || c == '~' || c == '#' || c == '='
}

/// The word put before an assignment.
fn prefix_for(export: bool) -> (r: &'static str)
    ensures
        r@ == export_prefix(export),
{
    if export {
        "export "
    } else {
        ""
    }
}

/// Whether a value must be quoted in an environment file.
pub fn needs_simple_quoting(value: &str) -> (r: bool)
    ensures
        r == simple_quoted(value@),
{
    let v = to_chars(value);
    if v.len() == 0 {
        return true;
    }
    let mut i: usize = 0;
    while i < v.len()
        invariant
            i <= v@.len(),
            v@ == value@,
            forall|j: int| 0 <= j < i ==> !is_simple_special(#[trigger] v@[j]),
        decreases v.len() - i,
    {
        let c = v[i];
        if char_is_space(c) || c == '=' || c == '"' || c == '\'' {
            return true;
        }
        i += 1;
    }
    false
}

/// A value escaped for the inside of the double quotes of an environment
/// file: a backslash before every backslash and every double quote.
pub fn escape_for_simple_quotes(value: &str) -> (r: String)
    ensures
        r@ == escaped(Escape::Simple, value@),
{
    let out = escape_chars(Escape::Simple, value);
    from_chars(out.as_slice())
}

/// Whether a value must be quoted in a shell assignment.
pub fn needs_bash_quoting(value: &str) -> (r: bool)
    ensures
        r == bash_quoted(value@),
{
    let v = to_chars(value);
    if v.len() == 0 {
        return true;
    }
    let mut i: usize = 0;
    while i < v.len()
        invariant
            i <= v@.len(),
            v@ == value@,
            forall|j: int| 0 <= j < i ==> !is_bash_special(#[trigger] v@[j]),
        decreases v.len() - i,
    {
        if char_is_bash_special(v[i]) {
            return true;
        }
        i += 1;
    }
    false
}

/// A value escaped for the inside of the double quotes of a shell
/// assignment.
pub fn escape_for_bash_double_quotes(value: &str) -> (r: String)
    ensures
        r@ == escaped(Escape::Bash, value@),
{
    let out = escape_chars(Escape::Bash, value);
    from_chars(out.as_slice())
}

/// A value escaped for a makefile assignment: `$` doubled, a backslash
/// before `#` and before a backslash.
pub fn escape_for_make(value: &str) -> (r: String)
    ensures
        r@ == escaped(Escape::Make, value@),
{
    let out = escape_chars(Escape::Make, value);
    from_chars(out.as_slice())
}

/// A value escaped for a makefile `$(eval ...)` statement: `$` written four
/// times, a backslash before `#` and before a backslash.
pub fn escape_for_make_eval(value: &str) -> (r: String)
    ensures
        r@ == escaped(Escape::MakeEval, value@),
{
    let out = escape_chars(Escape::MakeEval, value);
    from_chars(out.as_slice())
}

/// Whether the upper-case name `upper` is one of the variables that carry
/// the identity or name its key file.
pub fn is_age_key_upper(upper: &str) -> (r: bool)
    ensures
        r == is_age_key_name(upper@),
{
    let u = to_chars(upper);
    let tail = to_chars("_AGE_KEY_NAME");
    crate::text::str_eq(upper, "DOTENVAGE_AGE_KEY") || crate::text::str_eq(upper, "AGE_KEY")
        || crate::text::str_eq(upper, "EKG_AGE_KEY") || crate::text::str_eq(upper, "AGE_KEY_NAME")
        || chars_end_with(u.as_slice(), tail.as_slice())
}

/// Whether a variable carries the identity or names its key file, whatever
/// the letter case of its name. Such variables are never written out.
pub fn is_age_key_variable(key: &str) -> (r: bool)
    ensures
        r == is_age_key_name(uppercase_of(key@)),
{
    let upper = uppercase(key);
    is_age_key_upper(upper.as_str())
}

/// A variable as a makefile `$(eval ...)` statement.
pub fn dump_make_eval_var(key: &str, value: &str, export: bool) -> (r: String)
    ensures
        r@ == make_eval_line(key@, value@, export),
{
    let mut out = to_chars("$(eval ");
    append_str(&mut out, prefix_for(export));
    append_str(&mut out, key);
    append_str(&mut out, " := ");
    let e = escape_for_make_eval(value);
    append_str(&mut out, e.as_str());
    append_str(&mut out, ")");
    from_chars(out.as_slice())
}

/// A variable as a makefile assignment.
pub fn dump_make_var(key: &str, value: &str, export: bool) -> (r: String)
    ensures
        r@ == make_line(key@, value@, export),
{
    let mut out = to_chars(prefix_for(export));
    append_str(&mut out, key);
    append_str(&mut out, " := ");
    let e = escape_for_make(value);
    append_str(&mut out, e.as_str());
    from_chars(out.as_slice())
}

/// A variable as a shell assignment, quoted and escaped where it must be.
pub fn dump_bash_var(key: &str, value: &str, prefix: &str) -> (r: String)
    ensures
        r@ == bash_line(key@, value@, prefix@),
{
    let mut out = to_chars(prefix);
    append_str(&mut out, key);
    if needs_bash_quoting(value) {
        append_str(&mut out, "=\"");
        let e = escape_for_bash_double_quotes(value);
        append_str(&mut out, e.as_str());
        append_str(&mut out, "\"");
    } else {
        append_str(&mut out, "=");
        append_str(&mut out, value);
    }
    from_chars(out.as_slice())
}

/// A variable as a line of an environment file, quoted and escaped where it
/// must be.
pub fn dump_simple_var(key: &str, value: &str, prefix: &str) -> (r: String)
    ensures
        r@ == simple_line(key@, value@, prefix@),
{
    let mut out = to_chars(prefix);
    append_str(&mut out, key);
    if needs_simple_quoting(value) {
        append_str(&mut out, "=\"");
        let e = escape_for_simple_quotes(value);
        append_str(&mut out, e.as_str());
        append_str(&mut out, "\"");
    } else {
        append_str(&mut out, "=");
        append_str(&mut out, value);
    }
    from_chars(out.as_slice())
}

/// A variable as a shell assignment where the options ask for a shell or
/// for `export`, else as a line of an environment file.
pub fn dump_env_var(key: &str, value: &str, options: DumpOptions) -> (r: String)
    ensures
        r@ == env_line(key@, value@, options),
{
    let prefix = prefix_for(options.export);
    if options.bash || options.export {
        dump_bash_var(key, value, prefix)
    } else {
        dump_simple_var(key, value, prefix)
    }
}

/// A variable in the format that the options ask for: a makefile
/// `$(eval ...)` statement, a makefile assignment, or an assignment for a
/// shell or an environment file.
pub fn dump_single_var(key: &str, value: &str, options: DumpOptions) -> (r: String)
    ensures
        r@ == dump_line(key@, value@, options),
{
    if options.make_eval {
        dump_make_eval_var(key, value, options.export)
    } else if options.make {
        dump_make_var(key, value, options.export)
    } else {
        dump_env_var(key, value, options)
    }
}

/// A variable as a line of an environment file that is written back,
/// without its line ending: the value in double quotes, its double quotes
/// escaped, where it holds a blank, `$` or a line feed.
pub fn env_file_line(key: &str, value: &str) -> (r: String)
    ensures
        r@ == stored_line(key@, value@),
{
    let v = to_chars(value);
    let mut out = to_chars(key);
    let mut quoted = false;
    let mut inner: Vec<char> = Vec::new();
    let mut i: usize = 0;
    assert(v@.take(0) == Seq::<char>::empty());
    while i < v.len()
        invariant
            i <= v@.len(),
            inner@ == stored_escaped(v@.take(i as int)),
            quoted == stored_quoted(v@.take(i as int)),
        decreases v.len() - i,
    {
        let c = v[i];
        proof {
            let part = v@.take(i + 1);
            let head = v@.take(i as int);
            assert(part.drop_last() == head);
            assert(part.last() == c);
            assert(part == head.push(c));
            assert forall|x: char| part.contains(x) <==> head.contains(x) || x == c by {
                if part.contains(x) {
                    let k = choose|k: int| 0 <= k < part.len() && part[k] == x;
                    if k < i {
                        assert(head[k] == x);
                    }
                }
                if head.contains(x) {
                    let k = choose|k: int| 0 <= k < head.len() && head[k] == x;
                    assert(part[k] == x);
                }
                if x == c {
                    assert(part[i as int] == x);
                }
            }
        }
        if c == ' ' || c == '$' || c == '\n' {
            quoted = true;
        }
        if c == '"' {
            append_str(&mut inner, "\\\"");
        } else {
            inner.push(c);
            assert(inner@ == stored_escaped(v@.take(i as int)) + seq![c]);
        }
        i += 1;
    }
    assert(v@.take(v@.len() as int) == v@);
    if quoted {
        append_str(&mut out, "=\"");
        crate::text::append_chars(&mut out, inner.as_slice());
        append_str(&mut out, "\"");
    } else {
        append_str(&mut out, "=");
        append_str(&mut out, value);
    }
    from_chars(out.as_slice())
}

} // verus!
