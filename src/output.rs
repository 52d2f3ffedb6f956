//! Output formats, and the GitHub Actions annotation rendering of diagnostics.
use vstd::prelude::*;

use crate::rules::{concat3, diag_views, rule_name, DiagModel, Diagnostic, Severity};
use crate::text::{chars_of, decimal, decimal_string, string_of};

verus! {

/// Supported output formats.
#[derive(Debug, Clone, Copy, PartialEq, Eq, Structural)]
pub enum Format {
    Text,
    Json,
    Github,
    Sarif,
    PrComment,
}

/// The lowercase form of a string, as `str::to_lowercase` computes it.
pub uninterp spec fn lower_of(s: Seq<char>) -> Seq<char>;

/// Relies on `str::to_lowercase`, whose result depends on the characters alone.
#[verifier::external_body]
fn lowercase(s: &str) -> (r: String)
    ensures
        r@ == lower_of(s@),
{
    s.to_lowercase()
}

/// The format a lowercase name stands for.
pub open spec fn format_named(s: Seq<char>) -> Option<Format> {
    if s == "text"@ {
        Some(Format::Text)
    } else if s == "json"@ {
        Some(Format::Json)
    } else if s == "github"@ {
        Some(Format::Github)
    } else if s == "sarif"@ {
        Some(Format::Sarif)
    } else if s == "pr-comment"@ || s == "pr_comment"@ {
        Some(Format::PrComment)
    } else {
        None
    }
}

impl Format {
    /// The format named by a lowercase name.
    pub fn from_lowercase(name: &String) -> (r: Option<Format>)
        ensures
            r == format_named(name@),
    {
        if *name == "text".to_owned() {
            Some(Format::Text)
        } else if *name == "json".to_owned() {
            Some(Format::Json)
        } else if *name == "github".to_owned() {
            Some(Format::Github)
        } else if *name == "sarif".to_owned() {
            Some(Format::Sarif)
        } else if *name == "pr-comment".to_owned() || *name == "pr_comment".to_owned() {
            Some(Format::PrComment)
        } else {
            None
        }
    }

    /// The format named by `s`, in any case; the error names the unknown format.
    pub fn parse(s: &str) -> (r: Result<Format, String>)
        ensures
            format_named(lower_of(s@)) matches Some(f) ==> r == Ok::<Format, String>(f),
            format_named(lower_of(s@)) is None ==> (r matches Err(m) && m@ == "Unknown format: "@
                + s@),
    {
        let lower = lowercase(s);
        match Format::from_lowercase(&lower) {
            Some(f) => Ok(f),
            None => {
                let mut m = "Unknown format: ".to_owned();
                m.append(s);
                Err(m)
            },
        }
    }
}

impl std::str::FromStr for Format {
    type Err = String;

    fn from_str(s: &str) -> Result<Format, String> {
        Format::parse(s)
    }
}

/// Renders diagnostics as text.
pub trait OutputFormatter {
    spec fn rendering(&self, ds: Seq<DiagModel>) -> Seq<char>;

    fn render(&self, diagnostics: &Vec<Diagnostic>) -> (r: String)
        ensures
            r@ == self.rendering(diag_views(diagnostics@)),
    ;
}

/// GitHub Actions workflow commands, one per diagnostic.
pub struct GithubFormatter;

pub open spec fn github_command(s: Severity) -> Seq<char> {
    match s {
        Severity::Error => "error"@,
        Severity::Warning => "warning"@,
        Severity::Info => "notice"@,
    }
}

/// `%`, carriage return and newline escaped as GitHub requires in command data.
pub open spec fn escape_data(s: Seq<char>) -> Seq<char>
    decreases s.len(),
{
    if s.len() == 0 {
        s
    } else {
        let c = s.last();
        let e = if c == '%' {
            "%25"@
        } else if c == '\r' {
            "%0D"@
        } else if c == '\n' {
            "%0A"@
        } else {
            seq![c]
        };
        escape_data(s.drop_last()) + e
    }
}

/// `::error file=F,line=L,title=ID::MESSAGE` and a newline; `line=L,` only when the
/// diagnostic has a line.
pub open spec fn github_line(d: DiagModel) -> Seq<char> {
    let line_part = match d.line {
        Some(l) => "line="@ + decimal(l as nat) + ","@,
        None => Seq::empty(),
    };
    "::"@ + github_command(d.severity) + " file="@ + d.path + ","@ + line_part + "title="@
        + rule_name(d.id) + "::"@ + escape_data(d.message) + "\n"@
}

pub open spec fn github_lines(ds: Seq<DiagModel>) -> Seq<char>
    decreases ds.len(),
{
    if ds.len() == 0 {
        Seq::empty()
    } else {
        github_lines(ds.drop_last()) + github_line(ds.last())
    }
}

fn escape_message(s: &str) -> (r: String)
    ensures
        r@ == escape_data(s@),
{
    let cs = chars_of(s);
    let mut out = String::new();
    let mut i: usize = 0;
    while i < cs.len()
        invariant
            i <= cs@.len(),
            cs@ == s@,
            out@ == escape_data(cs@.take(i as int)),
        decreases cs.len() - i,
    {
        let c = cs[i];
        let mut one: Vec<char> = Vec::new();
        one.push(c);
        let piece = if c == '%' {
            "%25".to_owned()
        } else if c == '\r' {
            "%0D".to_owned()
        } else if c == '\n' {
            "%0A".to_owned()
        } else {
            string_of(one.as_slice())
        };
        assert(one@ =~= seq![c]);
        out.append(piece.as_str());
        assert(cs@.take(i + 1).drop_last() =~= cs@.take(i as int));
        i += 1;
    }
    assert(cs@.take(cs@.len() as int) =~= cs@);
    out
}

impl GithubFormatter {
    /// The workflow command for one diagnostic.
    pub fn line_for(d: &Diagnostic) -> (r: String)
        ensures
            r@ == github_line(d@),
    {
        let command = match d.severity {
            Severity::Error => "error",
            Severity::Warning => "warning",
            Severity::Info => "notice",
        };
        let line_part = match d.line {
            Some(l) => {
                let n = decimal_string(l);
                concat3("line=", n.as_str(), ",")
            },
            None => String::new(),
        };
        let id = d.id.as_string();
        let message = escape_message(d.message.as_str());
        let mut s = concat3("::", command, " file=");
        s.append(d.path.as_str());
        s.append(",");
        s.append(line_part.as_str());
        s.append("title=");
        s.append(id.as_str());
        s.append("::");
        s.append(message.as_str());
        s.append("\n");
        s
    }
}

impl OutputFormatter for GithubFormatter {
    open spec fn rendering(&self, ds: Seq<DiagModel>) -> Seq<char> {
        github_lines(ds)
    }

    fn render(&self, diagnostics: &Vec<Diagnostic>) -> (r: String) {
        let mut out = String::new();
        let mut i: usize = 0;
        while i < diagnostics.len()
            invariant
                i <= diagnostics@.len(),
                out@ == github_lines(diag_views(diagnostics@).take(i as int)),
            decreases diagnostics.len() - i,
        {
            let line = GithubFormatter::line_for(&diagnostics[i]);
            out.append(line.as_str());
            assert(diag_views(diagnostics@).take(i + 1).drop_last() =~= diag_views(
                diagnostics@,
            ).take(i as int));
            assert(diag_views(diagnostics@)[i as int] == diagnostics@[i as int]@);
            i += 1;
        }
        assert(diag_views(diagnostics@).take(diagnostics@.len() as int) =~= diag_views(
            diagnostics@,
        ));
        out
    }
}

} // verus!
