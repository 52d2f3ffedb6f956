//! The `.env` parser: ordered key/value entries, tolerant of malformed lines.
use vstd::prelude::*;

use crate::error::EnvCheckError;
use crate::text::{
    chars_of, copy_range, find, find_char, lines, split_lines, starts_with,
    starts_with_vec, string_of, string_views, trim, trim_vec, views,
};

verus! {

/// One entry of a `.env` file.
#[derive(Debug, Clone, PartialEq, Eq)]
pub struct EnvVar {
    /// The key, e.g. `DATABASE_URL`.
    pub key: String,
    /// The value, with one layer of matching quotes removed.
    pub value: String,
    /// The line of the entry, counted from 1.
    pub line: usize,
    /// The line starts with `export `.
    pub exported: bool,
    /// The value was wrapped in matching quotes.
    pub quoted: bool,
}

/// What an entry holds, as mathematical values.
pub struct VarModel {
    pub key: Seq<char>,
    pub value: Seq<char>,
    pub line: int,
    pub exported: bool,
    pub quoted: bool,
}

impl View for EnvVar {
    type V = VarModel;

    open spec fn view(&self) -> VarModel {
        VarModel {
            key: self.key@,
            value: self.value@,
            line: self.line as int,
            exported: self.exported,
            quoted: self.quoted,
        }
    }
}

/// An entry as the line iterator yields it: the value is not unquoted.
#[derive(Debug, Clone)]
pub struct EnvVarRef {
    pub key: String,
    pub value: String,
    pub line: usize,
    pub exported: bool,
}

impl EnvVarRef {
    /// The owned entry with the same fields, not marked as quoted.
    pub fn to_owned(&self) -> (r: EnvVar)
        ensures
            r.key@ == self.key@,
            r.value@ == self.value@,
            r.line == self.line,
            r.exported == self.exported,
            !r.quoted,
    {
        EnvVar {
            key: self.key.clone(),
            value: self.value.clone(),
            line: self.line,
            exported: self.exported,
            quoted: false,
        }
    }
}

/// A parsed `.env` file.
#[derive(Debug, Clone)]
pub struct EnvFile {
    /// Where the file was read from.
    pub path: String,
    /// The entries, in file order; a repeated key appears once per occurrence.
    pub vars: Vec<EnvVar>,
    /// The lines of the file, verbatim.
    pub lines: Vec<String>,
}

pub open spec fn export_prefix() -> Seq<char> {
    seq!['e', 'x', 'p', 'o', 'r', 't', ' ']
}

/// A trimmed line without its `export ` prefix, and whether it had one.
pub open spec fn strip_export(t: Seq<char>) -> (bool, Seq<char>) {
    if starts_with(t, export_prefix()) {
        (true, trim(t.skip(7)))
    } else {
        (false, t)
    }
}

/// Key, unprocessed value and export flag of a line, when it is an assignment.
pub open spec fn line_fields(line: Seq<char>) -> Option<(Seq<char>, Seq<char>, bool)> {
    let t = trim(line);
    if t.len() == 0 || t[0] == '#' {
        None
    } else {
        let (exported, body) = strip_export(t);
        match find(body, '=') {
            None => None,
            Some(k) => {
                let key = trim(body.take(k));
                if key.len() == 0 {
                    None
                } else {
                    Some((key, trim(body.skip(k + 1)), exported))
                }
            },
        }
    }
}

pub open spec fn is_quote(c: char) -> bool {
    c == '"' || c == '\''
}

/// `v` is wrapped in one matching pair of single or double quotes.
pub open spec fn is_quoted(v: Seq<char>) -> bool {
    v.len() >= 2 && is_quote(v[0]) && v.last() == v[0]
}

/// `v` with one layer of matching quotes removed.
pub open spec fn unquote(v: Seq<char>) -> Seq<char> {
    if is_quoted(v) {
        v.subrange(1, v.len() - 1)
    } else {
        v
    }
}

/// The entry that line number `num` yields, if any.
pub open spec fn parse_line(line: Seq<char>, num: int) -> Option<VarModel> {
    match line_fields(line) {
        None => None,
        Some((key, raw, exported)) => Some(
            VarModel { key, value: unquote(raw), line: num, exported, quoted: is_quoted(raw) },
        ),
    }
}

/// The entries of the first `n` lines.
pub open spec fn parse_vars(ls: Seq<Seq<char>>, n: nat) -> Seq<VarModel>
    decreases n,
{
    if n == 0 || n > ls.len() {
        Seq::empty()
    } else {
        let prev = parse_vars(ls, (n - 1) as nat);
        match parse_line(ls[n - 1], n as int) {
            Some(v) => prev.push(v),
            None => prev,
        }
    }
}

/// The entries of a whole `.env` text.
pub open spec fn parse_model(content: Seq<char>) -> Seq<VarModel> {
    parse_vars(lines(content), lines(content).len())
}

pub open spec fn var_views(v: Seq<EnvVar>) -> Seq<VarModel> {
    v.map_values(|x: EnvVar| x@)
}

fn export_chars() -> (r: Vec<char>)
    ensures
        r@ == export_prefix(),
{
    let mut r: Vec<char> = Vec::new();
    r.push('e');
    r.push('x');
    r.push('p');
    r.push('o');
    r.push('r');
    r.push('t');
    r.push(' ');
    assert(r@ =~= export_prefix());
    r
}

/// Key, unprocessed value and export flag of a line.
fn split_fields(line: &[char]) -> (r: Option<(Vec<char>, Vec<char>, bool)>)
    ensures
        r matches Some(f) ==> line_fields(line@) == Some((f.0@, f.1@, f.2)),
        r is None ==> line_fields(line@) is None,
{
    let t = trim_vec(line);
    if t.len() == 0 || t[0] == '#' {
        return None;
    }
    let prefix = export_chars();
    let exported = starts_with_vec(t.as_slice(), prefix.as_slice());
    let body = if exported {
        let rest = copy_range(t.as_slice(), 7, t.len());
        assert(rest@ =~= t@.skip(7));
        trim_vec(rest.as_slice())
    } else {
        t
    };
    assert(strip_export(trim(line@)) == (exported, body@));
    match find_char(body.as_slice(), '=') {
        None => None,
        Some(k) => {
            let head = copy_range(body.as_slice(), 0, k);
            assert(head@ =~= body@.take(k as int));
            let key = trim_vec(head.as_slice());
            if key.len() == 0 {
                return None;
            }
            let tail = copy_range(body.as_slice(), k + 1, body.len());
            assert(tail@ =~= body@.skip(k + 1));
            let raw = trim_vec(tail.as_slice());
            Some((key, raw, exported))
        },
    }
}

/// Removes one layer of matching quotes from `v`.
fn unquote_vec(v: Vec<char>) -> (r: (Vec<char>, bool))
    ensures
        r.0@ == unquote(v@),
        r.1 == is_quoted(v@),
{
    let n = v.len();
    if n >= 2 && (v[0] == '"' || v[0] == '\'') && v[n - 1] == v[0] {
        (copy_range(v.as_slice(), 1, n - 1), true)
    } else {
        (v, false)
    }
}

/// The entry that line number `num` yields, if any.
pub fn parse_line_exec(line: &[char], num: usize) -> (r: Option<EnvVar>)
    ensures
        r matches Some(v) ==> parse_line(line@, num as int) == Some(v@),
        r is None ==> parse_line(line@, num as int) is None,
{
    match split_fields(line) {
        None => None,
        Some((key, raw, exported)) => {
            let (value, quoted) = unquote_vec(raw);
            Some(
                EnvVar {
                    key: string_of(key.as_slice()),
                    value: string_of(value.as_slice()),
                    line: num,
                    exported,
                    quoted,
                },
            )
        },
    }
}

/// The entries of `content`, in file order.
pub fn parse_env_zero_copy(content: &[char]) -> (r: Vec<EnvVar>)
    ensures
        var_views(r@) == parse_model(content@),
{
    let ls = split_lines(content);
    let ghost model = lines(content@);
    let mut vars: Vec<EnvVar> = Vec::new();
    let mut i: usize = 0;
    while i < ls.len()
        invariant
            i <= ls@.len(),
            views(ls@) == model,
            var_views(vars@) == parse_vars(model, i as nat),
        decreases ls.len() - i,
    {
        assert(ls@[i as int]@ == model[i as int]);
        let ghost prev = var_views(vars@);
        match parse_line_exec(ls[i].as_slice(), i + 1) {
            Some(v) => {
                vars.push(v);
                assert(var_views(vars@) =~= prev.push(v@));
            },
            None => {},
        }
        i += 1;
    }
    vars
}

/// The lines of `content`, as strings.
fn line_strings(content: &[char]) -> (r: Vec<String>)
    ensures
        string_views(r@) == lines(content@),
{
    let ls = split_lines(content);
    let mut r: Vec<String> = Vec::new();
    let mut i: usize = 0;
    while i < ls.len()
        invariant
            i <= ls@.len(),
            views(ls@) == lines(content@),
            string_views(r@) == lines(content@).take(i as int),
        decreases ls.len() - i,
    {
        assert(ls@[i as int]@ == lines(content@)[i as int]);
        let s = string_of(ls[i].as_slice());
        let ghost prev = string_views(r@);
        r.push(s);
        assert(string_views(r@) =~= prev.push(s@));
        i += 1;
        assert(string_views(r@) =~= lines(content@).take(i as int));
    }
    assert(lines(content@).take(ls@.len() as int) =~= lines(content@));
    r
}

impl EnvFile {
    /// Parses `.env` text; malformed lines yield no entry, and parsing never fails.
    pub fn parse_content(path: String, content: &str) -> (r: Result<EnvFile, EnvCheckError>)
        ensures
            r matches Ok(f) && f.path@ == path@ && string_views(f.lines@) == lines(content@)
                && var_views(f.vars@) == parse_model(content@),
    {
        let cs = chars_of(content);
        let lines = line_strings(cs.as_slice());
        let vars = parse_env_zero_copy(cs.as_slice());
        Ok(EnvFile { path, vars, lines })
    }
}

/// First line at or after `i` that is an assignment, or the number of lines.
pub open spec fn next_index(ls: Seq<Seq<char>>, i: int) -> int
    decreases ls.len() - i,
{
    if i < 0 || i >= ls.len() {
        ls.len() as int
    } else if line_fields(ls[i]) is Some {
        i
    } else {
        next_index(ls, i + 1)
    }
}

/// Yields the entries of a text one at a time, without unquoting values.
pub struct EnvVarIter {
    lines: Vec<Vec<char>>,
    line_num: usize,
}

impl EnvVarIter {
    /// The lines of the text being read.
    pub closed spec fn source(&self) -> Seq<Seq<char>> {
        views(self.lines@)
    }

    /// The number of lines read so far.
    pub closed spec fn position(&self) -> int {
        self.line_num as int
    }

    pub fn new(content: &str) -> (r: Self)
        ensures
            r.source() == lines(content@),
            r.position() == 0,
    {
        let cs = chars_of(content);
        let ls = split_lines(cs.as_slice());
        EnvVarIter { lines: ls, line_num: 0 }
    }

    /// The entry of the next assignment line: its key, trimmed value and 1-based line
    /// number; `None` once no such line is left.
    pub fn next_var(&mut self) -> (r: Option<EnvVarRef>)
        ensures
            final(self).source() == old(self).source(),
            ({
                let src = old(self).source();
                let k = next_index(src, old(self).position());
                &&& k == src.len() ==> r is None && final(self).position() >= src.len()
                &&& k < src.len() ==> {
                    &&& r matches Some(v) && line_fields(src[k]) == Some(
                        (v.key@, v.value@, v.exported),
                    ) && v.line == k + 1
                    &&& final(self).position() == k + 1
                }
            }),
    {
        let ghost src = views(self.lines@);
        let ghost p0 = self.line_num as int;
        let n = self.lines.len();
        while self.line_num < n
            invariant
                n == self.lines@.len(),
                src == views(self.lines@),
                src == views(old(self).lines@),
                src.len() == n,
                p0 == old(self).line_num,
                next_index(src, p0) == next_index(src, self.line_num as int),
            decreases n - self.line_num,
        {
            let i = self.line_num;
            assert(src[i as int] == self.lines@[i as int]@);
            self.line_num = i + 1;
            match split_fields(self.lines[i].as_slice()) {
                Some((key, raw, exported)) => {
                    assert(next_index(src, i as int) == i);
                    return Some(
                        EnvVarRef {
                            key: string_of(key.as_slice()),
                            value: string_of(raw.as_slice()),
                            line: i + 1,
                            exported,
                        },
                    );
                },
                None => {},
            }
        }
        None
    }
}

proof fn lemma_parse_vars_prefix(ls: Seq<Seq<char>>, m: nat, n: nat)
    requires
        m <= n <= ls.len(),
    ensures
        parse_vars(ls, m).len() <= parse_vars(ls, n).len(),
        parse_vars(ls, n).take(parse_vars(ls, m).len() as int) == parse_vars(ls, m),
    decreases n,
{
    if m < n {
        lemma_parse_vars_prefix(ls, m, (n - 1) as nat);
        let a = parse_vars(ls, m);
        let b = parse_vars(ls, (n - 1) as nat);
        assert(parse_vars(ls, n).take(a.len() as int) =~= b.take(a.len() as int));
    } else {
        assert(parse_vars(ls, n).take(parse_vars(ls, n).len() as int) =~= parse_vars(ls, n));
    }
}

/// A well-formed line `KEY=VALUE` (line `i`, counted from 0) yields one entry, at position
/// `j` after the entries of the lines above it: its key is the trimmed text before the
/// first `=`, its value the trimmed text after it with one layer of matching quotes
/// removed, and its line number `i + 1`. Every line is parsed on its own, so a key that
/// occurs again yields another entry further on, never a merged one.
pub proof fn law_assignment_line_entry(content: Seq<char>, i: int, k: int)
    requires
        0 <= i < lines(content).len(),
        ({
            let t = trim(lines(content)[i]);
            &&& t.len() > 0 && t[0] != '#'
            &&& !starts_with(t, export_prefix())
            &&& find(t, '=') == Some(k)
            &&& trim(t.take(k)).len() > 0
        }),
    ensures
        ({
            let t = trim(lines(content)[i]);
            let j = parse_vars(lines(content), i as nat).len();
            let raw = trim(t.skip(k + 1));
            &&& j < parse_model(content).len()
            &&& parse_model(content)[j as int] == VarModel {
                key: trim(t.take(k)),
                value: unquote(raw),
                line: i + 1,
                exported: false,
                quoted: is_quoted(raw),
            }
            &&& forall|i2: int|
                i < i2 <= lines(content).len() ==> j < (#[trigger] parse_vars(lines(content), i2 as nat)).len()
        }),
{
    let ls = lines(content);
    let n = ls.len();
    lemma_parse_vars_prefix(ls, (i + 1) as nat, n);
    assert forall|i2: int| i < i2 <= ls.len() implies parse_vars(ls, i as nat).len() < (
    #[trigger] parse_vars(ls, i2 as nat)).len() by {
        lemma_parse_vars_prefix(ls, (i + 1) as nat, i2 as nat);
    }
    let j = parse_vars(ls, i as nat).len();
    assert(parse_vars(ls, n)[j as int] == parse_vars(ls, n).take(
        parse_vars(ls, (i + 1) as nat).len() as int,
    )[j as int]);
}

} // verus!
