//! The run's configuration and the shape of what is printed for each source.
use crate::lines::{accepted, find_lines, lines_of};
use crate::matcher::Matcher;
use crate::resolve::stdin_path;
use vstd::prelude::*;

verus! {

/// A search, as the command line asked for it.
#[derive(Debug)]
pub struct Config {
    /// The compiled pattern, case folding included.
    pub pattern: Matcher,
    /// The path arguments, in order; `"-"` stands for standard input.
    pub files: Vec<String>,
    /// Whether directories are walked.
    pub recursive: bool,
    /// Whether only the number of accepted lines of each source is printed.
    pub count: bool,
    /// Whether the lines that do not match are the ones accepted.
    pub invert_match: bool,
}

/// The message for a pattern that does not compile.
pub open spec fn invalid_pattern_message(pattern: Seq<char>) -> Seq<char> {
    "Invalid pattern \""@ + pattern + "\""@
}

/// The path arguments of a search: those given, or the sentinel alone when
/// none is.
pub open spec fn search_paths(files: Seq<Seq<char>>) -> Seq<Seq<char>> {
    if files.len() == 0 {
        seq![stdin_path()]
    } else {
        files
    }
}

impl Config {
    /// Builds the configuration of a search; the error is the message for a
    /// pattern that does not compile.
    pub fn new(
        pattern: &str,
        case_insensitive: bool,
        files: Vec<String>,
        recursive: bool,
        count: bool,
        invert_match: bool,
    ) -> (r: Result<Config, String>)
        ensures
            r is Ok <==> crate::matcher::regex_compiles(pattern@, case_insensitive),
            r matches Ok(c) ==> {
                &&& c.pattern.source() == pattern@
                &&& c.pattern.case_insensitive() == case_insensitive
                &&& c.files.deep_view() == search_paths(files.deep_view())
                &&& c.recursive == recursive
                &&& c.count == count
                &&& c.invert_match == invert_match
            },
            r matches Err(m) ==> m@ == invalid_pattern_message(pattern@),
    {
        match Matcher::new(pattern, case_insensitive) {
            None => {
                let mut message = "Invalid pattern \"".to_owned();
                message.append(pattern);
                message.append("\"");
                Err(message)
            },
            Some(m) => {
                let files = if files.len() == 0 {
                    let dash = "-".to_owned();
                    proof {
                        reveal_strlit("-");
                    }
                    assert(dash@ =~= stdin_path());
                    let v = vec![dash];
                    assert(v.deep_view() =~= seq![stdin_path()]);
                    v
                } else {
                    files
                };
                Ok(Config { pattern: m, files, recursive, count, invert_match })
            },
        }
    }
}

/// The character of a decimal digit `d < 10`.
pub open spec fn digit_char(d: nat) -> char {
    seq!['0', '1', '2', '3', '4', '5', '6', '7', '8', '9'][d as int]
}

/// The decimal notation of `n`, without leading zeros.
pub open spec fn decimal(n: nat) -> Seq<char>
    decreases n,
{
    if n < 10 {
        seq![digit_char(n)]
    } else {
        decimal(n / 10).push(digit_char(n % 10))
    }
}

/// `s` without the white space at its start and at its end.
pub uninterp spec fn trimmed(s: Seq<char>) -> Seq<char>;

/// Relies on `usize`'s `Display` impl, through `ToString`: the decimal
/// notation of `n`.
#[verifier::external_body]
fn decimal_text(n: usize) -> (r: String)
    ensures
        r@ == decimal(n as nat),
{
    n.to_string()
}

/// Relies on `str::trim`: `s` without its leading and trailing white space,
/// which depends on the characters of `s` alone.
#[verifier::external_body]
fn trim(s: &str) -> (r: &str)
    ensures
        r@ == trimmed(s@),
{
    s.trim()
}

/// Whether the output of a source goes without its name: in a single-source
/// run, or for standard input.
pub open spec fn bare(filename: Seq<char>, is_single_source: bool) -> bool {
    is_single_source || filename == stdin_path()
}

/// One printed line: `text` alone, or prefixed with `"<filename>: "`.
pub open spec fn shown(filename: Seq<char>, is_single_source: bool, text: Seq<char>) -> Seq<char> {
    if bare(filename, is_single_source) {
        text
    } else {
        filename + ": "@ + text
    }
}

/// What is printed for a source whose accepted lines are `lines`: their
/// number in count mode, else each line trimmed of its terminator and of
/// surrounding white space.
pub open spec fn rendered(
    filename: Seq<char>,
    lines: Seq<Seq<char>>,
    is_single_source: bool,
    count: bool,
) -> Seq<Seq<char>> {
    if count {
        seq![shown(filename, is_single_source, decimal(lines.len()))]
    } else {
        lines.map_values(|l: Seq<char>| shown(filename, is_single_source, trimmed(l)))
    }
}

/// Whether a run is a single-source run: exactly one entry was resolved,
/// errors included.
pub fn is_single_source(entries: &Vec<Result<String, String>>) -> (r: bool)
    ensures
        r == (entries.len() == 1),
{
    entries.len() == 1
}

fn show(filename: &str, is_single_source: bool, text: &str) -> (r: String)
    ensures
        r@ == shown(filename@, is_single_source, text@),
{
    if is_single_source || crate::resolve::is_stdin(filename) {
        text.to_owned()
    } else {
        let mut line = filename.to_owned();
        line.append(": ");
        line.append(text);
        line
    }
}

/// The line reporting that `filename` could not be opened or read.
pub fn error_line(filename: &str, cause: &str) -> (r: String)
    ensures
        r@ == filename@ + ": "@ + cause@,
{
    let mut line = filename.to_owned();
    line.append(": ");
    line.append(cause);
    line
}

/// The lines printed for the source `filename` whose accepted lines are
/// `lines`.
pub fn render(filename: &String, lines: &Vec<String>, is_single_source: bool, count: bool) -> (r:
    Vec<String>)
    ensures
        r.deep_view() == rendered(filename@, lines.deep_view(), is_single_source, count),
{
    if count {
        let n = decimal_text(lines.len());
        let v = vec![show(filename.as_str(), is_single_source, n.as_str())];
        assert(v.deep_view() =~= rendered(filename@, lines.deep_view(), is_single_source, count));
        return v;
    }
    let mut out: Vec<String> = Vec::new();
    let mut i: usize = 0;
    while i < lines.len()
        invariant
            i <= lines.len(),
            !count,
            out.deep_view() =~= rendered(
                filename@,
                lines.deep_view().take(i as int),
                is_single_source,
                count,
            ),
        decreases lines.len() - i,
    {
        let line = show(filename.as_str(), is_single_source, trim(lines[i].as_str()));
        let ghost before = out.deep_view();
        out.push(line);
        proof {
            assert(out.deep_view() =~= before.push(shown(filename@, is_single_source, trimmed(lines[i as int]@))));
            assert(lines.deep_view().take(i as int + 1) =~= lines.deep_view().take(i as int).push(lines[i as int]@));
        }
        i = i + 1;
    }
    proof {
        assert(lines.deep_view().take(lines.len() as int) =~= lines.deep_view());
    }
    out
}

/// The lines printed for the source `filename` with content `text`, in the
/// search `config`.
pub fn render_source(config: &Config, filename: &String, is_single_source: bool, text: &str) -> (r:
    Vec<String>)
    ensures
        r.deep_view() == rendered(
            filename@,
            accepted(lines_of(text@), config.pattern, config.invert_match),
            is_single_source,
            config.count,
        ),
{
    let found = find_lines(text, &config.pattern, config.invert_match);
    render(filename, &found, is_single_source, config.count)
}

} // verus!
