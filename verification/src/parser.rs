//! The file parser: raw text to assignments, and assignments to decrypted
//! values.
//!
//! The text is cut into lines at every line feed. A line that is blank, or
//! whose first character after leading white space is `#`, is skipped, and so
//! is one without `=`. Any other line is cut at its first `=`: the key is the
//! trimmed left part, the value the trimmed right part without one layer of
//! matching quotes around it.

use crate::error::SecretsError;
use crate::loader::EnvLoader;
use crate::manager::{decrypted, encrypted, SecretManager};
use crate::text::{
    append_chars, append_str, chars_index_of, chars_split, copy_range, decimal, decimal_chars,
    from_chars, index_of, split, starts_with, to_chars, trim, trim_chars,
};
use crate::varmap::VarMap;
use vstd::prelude::*;

verus! {

/// One assignment of a file, as character sequences.
pub struct Assignment {
    /// The variable's name.
    pub key: Seq<char>,
    /// The value as the file spells it, quotes removed, still encrypted
    /// where it is.
    pub value: Seq<char>,
    /// The line it stands on, counted from one.
    pub line: nat,
}

/// One assignment of a file.
pub struct EnvLine {
    /// The variable's name.
    pub key: String,
    /// The value as the file spells it, quotes removed, still encrypted
    /// where it is.
    pub value: String,
    /// The line it stands on, counted from one.
    pub line: usize,
}

impl View for EnvLine {
    type V = Assignment;

    open spec fn view(&self) -> Assignment {
        Assignment { key: self.key@, value: self.value@, line: self.line as nat }
    }
}

/// The assignments held by a vector of lines.
pub open spec fn assignments_of(v: Seq<EnvLine>) -> Seq<Assignment> {
    Seq::new(v.len(), |i: int| v[i]@)
}

/// `v` without one layer of matching quotes around it, double or single.
pub open spec fn unquote(v: Seq<char>) -> Seq<char> {
    if v.len() >= 2 && ((v[0] == '"' && v.last() == '"') || (v[0] == '\'' && v.last() == '\'')) {
        v.subrange(1, v.len() - 1)
    } else {
        v
    }
}

/// The key and value that one line assigns, if it assigns any.
pub open spec fn parse_line(line: Seq<char>) -> Option<(Seq<char>, Seq<char>)> {
    let t = trim(line);
    if t.len() == 0 || t[0] == '#' {
        None
    } else {
        match index_of(t, '=') {
            Some(i) => Some((trim(t.take(i)), unquote(trim(t.skip(i + 1))))),
            None => None,
        }
    }
}

/// The assignments of the first `upto` lines, in order.
pub open spec fn assignments(lines: Seq<Seq<char>>, upto: int) -> Seq<Assignment>
    decreases upto,
{
    if upto <= 0 || upto > lines.len() {
        Seq::empty()
    } else {
        match parse_line(lines[upto - 1]) {
            Some((k, v)) => assignments(lines, upto - 1).push(
                Assignment { key: k, value: v, line: upto as nat },
            ),
            None => assignments(lines, upto - 1),
        }
    }
}

/// The assignments of a file's text, in order.
pub open spec fn parsed(content: Seq<char>) -> Seq<Assignment> {
    assignments(split(content, '\n'), split(content, '\n').len() as int)
}

/// What decrypting the first `upto` assignments gives: the map from keys to
/// decrypted values, a later assignment replacing an earlier one; or the
/// first assignment whose value fails to decrypt.
pub open spec fn decrypt_all(identity: Seq<char>, items: Seq<Assignment>, upto: int) -> Result<
    Map<Seq<char>, Seq<char>>,
    Assignment,
>
    decreases upto,
{
    if upto <= 0 || upto > items.len() {
        Ok(Map::empty())
    } else {
        match decrypt_all(identity, items, upto - 1) {
            Ok(m) => match decrypted(identity, items[upto - 1].value) {
                Some(p) => Ok(m.insert(items[upto - 1].key, p)),
                None => Err(items[upto - 1]),
            },
            Err(a) => Err(a),
        }
    }
}

/// What a file's text holds under an identity: its variables with their
/// decrypted values, or the first assignment whose value fails to decrypt.
pub open spec fn file_vars(identity: Seq<char>, content: Seq<char>) -> Result<
    Map<Seq<char>, Seq<char>>,
    Assignment,
> {
    decrypt_all(identity, parsed(content), parsed(content).len() as int)
}

/// The variables that the first `upto` assignments give in plaintext: those
/// whose value is not in an encrypted form, a later such assignment replacing
/// an earlier one.
pub open spec fn plain_all(items: Seq<Assignment>, upto: int) -> Map<Seq<char>, Seq<char>>
    decreases upto,
{
    if upto <= 0 || upto > items.len() {
        Map::empty()
    } else if encrypted(items[upto - 1].value) {
        plain_all(items, upto - 1)
    } else {
        plain_all(items, upto - 1).insert(items[upto - 1].key, items[upto - 1].value)
    }
}

/// The variables that a file's text gives in plaintext.
pub open spec fn plain_vars(content: Seq<char>) -> Map<Seq<char>, Seq<char>> {
    plain_all(parsed(content), parsed(content).len() as int)
}

/// The start of the reason reported for an assignment whose value fails to
/// decrypt: its line and its key.
pub open spec fn failure_head(line: nat, key: Seq<char>) -> Seq<char> {
    "line "@ + decimal(line) + " for '"@ + key + "': "@
}

/// `v` without one layer of matching quotes around it.
fn unquote_chars(v: Vec<char>) -> (r: Vec<char>)
    ensures
        r@ == unquote(v@),
{
    let n = v.len();
    if n >= 2 && ((v[0] == '"' && v[n - 1] == '"') || (v[0] == '\'' && v[n - 1] == '\'')) {
        copy_range(v.as_slice(), 1, n - 1)
    } else {
        v
    }
}

/// The key and value that one line assigns, if it assigns any.
fn parse_one(line: &Vec<char>) -> (r: Option<(Vec<char>, Vec<char>)>)
    ensures
        match r {
            Some((k, v)) => parse_line(line@) == Some((k@, v@)),
            None => parse_line(line@) is None,
        },
{
    let t = trim_chars(line.as_slice());
    if t.len() == 0 || t[0] == '#' {
        return None;
    }
    match chars_index_of(t.as_slice(), '=') {
        Some(i) => {
            let left = copy_range(t.as_slice(), 0, i);
            let right = copy_range(t.as_slice(), i + 1, t.len());
            assert(left@ == t@.take(i as int));
            assert(right@ == t@.skip(i + 1));
            let key = trim_chars(left.as_slice());
            let value = unquote_chars(trim_chars(right.as_slice()));
            Some((key, value))
        },
        None => None,
    }
}

impl EnvLoader {
    /// The assignments of a file's text, in order, values still encrypted
    /// where they are.
    pub fn parse_lines(content: &str) -> (r: Vec<EnvLine>)
        ensures
            assignments_of(r@) == parsed(content@),
    {
        let text = to_chars(content);
        let lines = chars_split(text.as_slice(), '\n');
        let ghost ls = split(content@, '\n');
        let mut r: Vec<EnvLine> = Vec::new();
        let mut i: usize = 0;
        assert(assignments_of(r@) == assignments(ls, 0));
        while i < lines.len()
            invariant
                i <= lines@.len(),
                lines@.len() == ls.len(),
                forall|k: int| 0 <= k < lines@.len() ==> (#[trigger] lines@[k])@ == ls[k],
                assignments_of(r@) == assignments(ls, i as int),
            decreases lines.len() - i,
        {
            let ghost before = assignments_of(r@);
            match parse_one(&lines[i]) {
                Some((k, v)) => {
                    let line = EnvLine {
                        key: from_chars(k.as_slice()),
                        value: from_chars(v.as_slice()),
                        line: i + 1,
                    };
                    r.push(line);
                    assert(assignments_of(r@) == before.push(
                        Assignment { key: k@, value: v@, line: (i + 1) as nat },
                    ));
                },
                None => {},
            }
            i += 1;
        }
        r
    }

    /// The variables that a file's text gives in plaintext: the assignments
    /// whose value is not in an encrypted form.
    pub fn plaintext_entries(content: &str) -> (r: VarMap)
        ensures
            r@ == plain_vars(content@),
    {
        let items = EnvLoader::parse_lines(content);
        let ghost all = parsed(content@);
        let mut r = VarMap::new();
        let mut i: usize = 0;
        while i < items.len()
            invariant
                i <= items@.len(),
                all == assignments_of(items@),
                r@ == plain_all(all, i as int),
            decreases items.len() - i,
        {
            assert(all[i as int] == items@[i as int]@);
            if !SecretManager::is_encrypted(items[i].value.as_str()) {
                r.insert(items[i].key.clone(), items[i].value.clone());
            }
            i += 1;
        }
        r
    }

    /// The reason reported for the assignment on `line` for `key`, whose
    /// value failed to decrypt with the error `cause`.
    pub fn failure_reason(line: usize, key: &str, cause: &SecretsError) -> (r: String)
        ensures
            r@ == failure_head(line as nat, key@) + cause.text(),
    {
        let mut out = to_chars("line ");
        let digits = decimal_chars(line);
        append_chars(&mut out, digits.as_slice());
        append_str(&mut out, " for '");
        append_str(&mut out, key);
        append_str(&mut out, "': ");
        let text = cause.to_string();
        append_str(&mut out, text.as_str());
        from_chars(out.as_slice())
    }

    /// The variables of a file's text with their values decrypted. A value
    /// that fails to decrypt aborts the parse: the error is
    /// `EnvFileParseFailed` with the path and a reason that begins with the
    /// line, the key and `decryption failed: `.
    pub fn parse_and_decrypt(&self, content: &str, path: &str) -> (r: Result<VarMap, SecretsError>)
        ensures
            match file_vars(self.key(), content@) {
                Ok(m) => r matches Ok(v) && v@ == m,
                Err(a) => r matches Err(SecretsError::EnvFileParseFailed { path: p, reason })
                    && p@ == path@ && starts_with(
                    reason@,
                    failure_head(a.line, a.key) + "decryption failed: "@,
                ),
            },
    {
        let items = EnvLoader::parse_lines(content);
        let ghost all = parsed(content@);
        let ghost id = self.key();
        let mut vars = VarMap::new();
        let mut i: usize = 0;
        while i < items.len()
            invariant
                i <= items@.len(),
                all == assignments_of(items@),
                all == parsed(content@),
                id == self.key(),
                decrypt_all(id, all, i as int) == Ok::<Map<Seq<char>, Seq<char>>, Assignment>(
                    vars@,
                ),
            decreases items.len() - i,
        {
            assert(all[i as int] == items@[i as int]@);
            match self.secrets().decrypt_value(items[i].value.as_str()) {
                Ok(p) => {
                    vars.insert(items[i].key.clone(), p);
                },
                Err(e) => {
                    let reason = EnvLoader::failure_reason(
                        items[i].line,
                        items[i].key.as_str(),
                        &e,
                    );
                    proof {
                        let a = all[i as int];
                        let head = failure_head(a.line, a.key);
                        let lead = head + "decryption failed: "@;
                        assert(decrypted(id, a.value) is None);
                        assert(e is DecryptionFailed);
                        assert(reason@ == head + ("decryption failed: "@ + e->DecryptionFailed_0@));
                        assert(reason@ =~= lead + e->DecryptionFailed_0@);
                        assert(reason@.take(lead.len() as int) =~= lead);
                        assert(all.len() == items@.len());
                        assert(decrypt_all(id, all, i + 1) == Err::<
                            Map<Seq<char>, Seq<char>>,
                            Assignment,
                        >(a));
                        lemma_decrypt_all_stops(id, all, i + 1, all.len() as int);
                    }
                    return Err(
                        SecretsError::EnvFileParseFailed { path: path.to_owned(), reason },
                    );
                },
            }
            i += 1;
        }
        Ok(vars)
    }
}

/// Once an assignment has failed to decrypt, that failure is the outcome
/// whatever follows.
pub proof fn lemma_decrypt_all_stops(
    identity: Seq<char>,
    items: Seq<Assignment>,
    at: int,
    upto: int,
)
    requires
        0 <= at <= upto <= items.len(),
        decrypt_all(identity, items, at) is Err,
    ensures
        decrypt_all(identity, items, upto) == decrypt_all(identity, items, at),
    decreases upto - at,
{
    if at < upto {
        lemma_decrypt_all_stops(identity, items, at, upto - 1);
    }
}

} // verus!
