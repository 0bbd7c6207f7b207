//! The placeholder grammar and the matcher that scans text for it.
//!
//! The grammar is a regular expression, compiled once by the `regex` crate.
//! What the crate finds in a text is not re-derived here: it has a name,
//! [`regex_captures`], and everything else is stated over that name.

use crate::text::occurs_in;
use regex::Regex;
use vstd::prelude::*;

verus! {

/// The placeholder grammar.
///
/// `$`, an optional second `$` that marks the placeholder as escaped, `{`, an
/// optional body and `}`. The body is a command, `:`, a path, an optional
/// field behind `#` or `?`, and an optional default behind `:-`. Command, path
/// and field are trimmed. The default keeps its whitespace and runs to the
/// last closing brace of its line, so a placeholder with a default is the
/// last one on its line. Path and field hold no brace, so of two nested
/// placeholders only the inner one matches.
pub const PLACEHOLDER_PATTERN: &'static str =
    r"\$(?P<exclude>\$){0,1}\{(?:\s*(?P<command>[^:\s]+)\s*:\s*(?P<path>[^{}]+?)\s*(?:(?:#|\?)\s*(?P<field>[^{}]*?)\s*){0,1}?(?:(?::-)(?P<default_value>.+)){0,1}\s*?){0,1}}";

/// The capture groups that a placeholder is read from, in the order of the
/// columns of a [`PlaceholderMatch`].
pub open spec fn placeholder_groups() -> Seq<Seq<char>> {
    seq!["exclude"@, "command"@, "path"@, "field"@, "default_value"@]
}

#[verifier::external_type_specification]
#[verifier::external_body]
pub struct ExRegex(Regex);

#[verifier::external_type_specification]
#[verifier::external_body]
pub struct ExRegexError(regex::Error);

/// The pattern that a compiled regular expression was built from, as
/// `Regex::as_str` returns it.
pub uninterp spec fn regex_source(re: Regex) -> Seq<char>;

/// Whether `Regex::new` accepts the pattern.
pub uninterp spec fn regex_compiles(pattern: Seq<char>) -> bool;

/// What the regular expression `pattern` finds in `text`: one row for each of
/// the successive non-overlapping matches that `Regex::captures_iter` yields,
/// from left to right. A row holds the text of the whole match first, then the
/// text of each capture group named in `groups`, in their order; a group that
/// took no part in the match is `None`.
pub uninterp spec fn regex_captures(
    pattern: Seq<char>,
    groups: Seq<Seq<char>>,
    text: Seq<char>,
) -> Seq<Seq<Option<Seq<char>>>>;

/// The names in `groups`, as sequences of characters.
pub open spec fn group_names(groups: Seq<&str>) -> Seq<Seq<char>> {
    groups.map_values(|g: &str| g@)
}

/// Calls `Regex::new`. It succeeds exactly on the patterns that the crate
/// accepts, and the compiled expression remembers the pattern it came from.
#[verifier::external_body]
fn compile_regex(pattern: &str) -> (r: Result<Regex, regex::Error>)
    ensures
        r is Ok <==> regex_compiles(pattern@),
        r is Ok ==> regex_source(r->Ok_0) == pattern@,
{
    Regex::new(pattern)
}

/// Calls `Regex::captures_iter` and reads, of each match, the whole match
/// (`Captures::get(0)`) and the named groups (`Captures::name`) as owned
/// strings (`Match::as_str`). The rows are those of [`regex_captures`]. Every
/// row has one column more than there are names; its first column is always
/// there, and is a piece of the text that was searched.
#[verifier::external_body]
fn capture_rows(re: &Regex, groups: &Vec<&str>, text: &str) -> (rows: Vec<Vec<Option<String>>>)
    ensures
        rows.deep_view() == regex_captures(regex_source(*re), group_names(groups@), text@),
        forall|i: int|
            0 <= i < rows.len() ==> {
                &&& (#[trigger] rows[i]).len() == groups.len() + 1
                &&& rows[i][0] is Some
                &&& occurs_in(text@, rows[i][0]->0@)
            },
{
    re.captures_iter(text).map(|c| {
        let mut row = vec![c.get(0).map(|m| m.as_str().to_owned())];
        row.extend(groups.iter().map(|g| c.name(g).map(|m| m.as_str().to_owned())));
        row
    }).collect()
}

/// One occurrence of a placeholder in a text.
#[derive(Debug, Clone, PartialEq, Eq)]
pub struct PlaceholderMatch {
    /// The whole placeholder as it stands in the text, from `$` to `}`.
    pub full_text: String,
    /// The escape marker, where the placeholder has one.
    pub exclude: Option<String>,
    /// The command identifier.
    pub command: Option<String>,
    /// The command's argument.
    pub path: Option<String>,
    /// The selector of a sub-value of a structured result.
    pub field: Option<String>,
    /// The fallback text.
    pub default_value: Option<String>,
}

/// A [`PlaceholderMatch`] as plain sequences of characters.
pub ghost struct Placeholder {
    pub full_text: Seq<char>,
    pub exclude: Option<Seq<char>>,
    pub command: Option<Seq<char>>,
    pub path: Option<Seq<char>>,
    pub field: Option<Seq<char>>,
    pub default_value: Option<Seq<char>>,
}

impl Placeholder {
    /// The placeholder carries the escape marker and is not to be resolved.
    pub open spec fn escaped(self) -> bool {
        self.exclude is Some
    }

    /// The placeholder names a command and a path, so that a command can be
    /// asked for its value.
    pub open spec fn well_formed(self) -> bool {
        self.command is Some && self.path is Some
    }
}

impl View for PlaceholderMatch {
    type V = Placeholder;

    open spec fn view(&self) -> Placeholder {
        Placeholder {
            full_text: self.full_text@,
            exclude: self.exclude.deep_view(),
            command: self.command.deep_view(),
            path: self.path.deep_view(),
            field: self.field.deep_view(),
            default_value: self.default_value.deep_view(),
        }
    }
}

impl DeepView for PlaceholderMatch {
    type V = Placeholder;

    open spec fn deep_view(&self) -> Placeholder {
        self.view()
    }
}

/// What a command is asked with: the parts of a placeholder that is to be
/// resolved.
#[derive(Debug, Clone, PartialEq, Eq)]
pub struct Invocation {
    pub command: String,
    pub path: String,
    pub field: Option<String>,
    pub default_value: Option<String>,
}

/// A copy of an optional string.
fn copy_of(text: &Option<String>) -> (copy: Option<String>)
    ensures
        copy.deep_view() == text.deep_view(),
{
    match text {
        Some(s) => Some(s.clone()),
        None => None,
    }
}

impl PlaceholderMatch {
    /// Whether the placeholder carries the escape marker.
    pub fn is_escaped(&self) -> (b: bool)
        ensures
            b == self@.escaped(),
    {
        self.exclude.is_some()
    }

    /// What the placeholder's command is to be asked with: its command, path,
    /// field and default, as they stand in the placeholder. An escaped
    /// placeholder asks nothing, nor does one without command or path.
    pub fn invocation(&self) -> (call: Option<Invocation>)
        ensures
            call is Some <==> !self@.escaped() && self@.well_formed(),
            call is Some ==> {
                &&& Some(call->0.command@) == self@.command
                &&& Some(call->0.path@) == self@.path
                &&& call->0.field.deep_view() == self@.field
                &&& call->0.default_value.deep_view() == self@.default_value
            },
    {
        if self.is_escaped() {
            return None;
        }
        match (&self.command, &self.path) {
            (Some(command), Some(path)) => Some(
                Invocation {
                    command: command.clone(),
                    path: path.clone(),
                    field: copy_of(&self.field),
                    default_value: copy_of(&self.default_value),
                },
            ),
            _ => None,
        }
    }
}

/// The placeholder that a row of captures stands for. The row has the whole
/// match in its first column, then the groups of [`placeholder_groups`].
pub open spec fn placeholder_of_row(row: Seq<Option<Seq<char>>>) -> Placeholder {
    Placeholder {
        full_text: match row[0] {
            Some(s) => s,
            None => Seq::empty(),
        },
        exclude: row[1],
        command: row[2],
        path: row[3],
        field: row[4],
        default_value: row[5],
    }
}

/// The placeholders that the regular expression `pattern` finds in `text`,
/// from left to right.
pub open spec fn placeholders(pattern: Seq<char>, text: Seq<char>) -> Seq<Placeholder> {
    regex_captures(pattern, placeholder_groups(), text).map_values(
        |row: Seq<Option<Seq<char>>>| placeholder_of_row(row),
    )
}

/// Every placeholder of `found` stands somewhere in `text`.
pub open spec fn found_in(text: Seq<char>, found: Seq<Placeholder>) -> bool {
    forall|i: int| 0 <= i < found.len() ==> occurs_in(text, (#[trigger] found[i]).full_text)
}

/// Takes the last column off a row.
fn take_last(row: &mut Vec<Option<String>>) -> (last: Option<String>)
    requires
        old(row).len() > 0,
    ensures
        last == old(row)@.last(),
        final(row)@ == old(row)@.drop_last(),
{
    match row.pop() {
        Some(column) => column,
        None => None,
    }
}

/// Reads a placeholder from a row of captures.
fn placeholder_from_row(row: Vec<Option<String>>) -> (m: PlaceholderMatch)
    requires
        row.len() == 6,
        row[0] is Some,
    ensures
        m@ == placeholder_of_row(row.deep_view()),
{
    let mut row = row;
    let ghost whole = row.deep_view();
    proof {
        assert forall|i: int| 0 <= i < 6 implies whole[i] == row@[i].deep_view() by {}
    }
    let default_value = take_last(&mut row);
    let field = take_last(&mut row);
    let path = take_last(&mut row);
    let command = take_last(&mut row);
    let exclude = take_last(&mut row);
    let full_text = match take_last(&mut row) {
        Some(s) => s,
        None => String::new(),
    };
    PlaceholderMatch { full_text, exclude, command, path, field, default_value }
}

/// The compiled placeholder grammar.
pub struct Matcher {
    regex: Regex,
}

impl Matcher {
    /// The pattern that the matcher was compiled from.
    pub closed spec fn pattern(&self) -> Seq<char> {
        regex_source(self.regex)
    }

    /// Compiles a pattern. This fails exactly where the `regex` crate rejects
    /// the pattern, with the crate's error.
    pub fn compile(pattern: &str) -> (r: Result<Matcher, regex::Error>)
        ensures
            r is Ok <==> regex_compiles(pattern@),
            r is Ok ==> r->Ok_0.pattern() == pattern@,
    {
        match compile_regex(pattern) {
            Ok(regex) => Ok(Matcher { regex }),
            Err(e) => Err(e),
        }
    }

    /// The placeholders of `text`, in the order in which the grammar finds
    /// them. Each is a piece of `text`.
    pub fn find_all(&self, text: &str) -> (found: Vec<PlaceholderMatch>)
        ensures
            found.deep_view() == placeholders(self.pattern(), text@),
            found_in(text@, found.deep_view()),
    {
        let groups: Vec<&str> = vec!["exclude", "command", "path", "field", "default_value"];
        proof {
            assert(group_names(groups@) =~= placeholder_groups());
        }
        let mut rows = capture_rows(&self.regex, &groups, text);
        let ghost all = rows.deep_view();
        let mut found: Vec<PlaceholderMatch> = Vec::new();
        let total: usize = rows.len();
        // The rows are taken from the back, so the result is built reversed
        // and turned round at the end.
        let mut reversed: Vec<PlaceholderMatch> = Vec::new();
        while rows.len() > 0
            invariant
                rows.len() <= total,
                total == all.len(),
                reversed.len() == total - rows.len(),
                rows.deep_view() == all.take(rows.len() as int),
                forall|i: int|
                    0 <= i < rows.len() ==> {
                        &&& (#[trigger] rows[i]).len() == 6
                        &&& rows[i][0] is Some
                    },
                forall|k: int|
                    0 <= k < reversed.len() ==> (#[trigger] reversed[k])@ == placeholder_of_row(
                        all[total - 1 - k],
                    ),
            decreases rows.len(),
        {
            let ghost before = rows.deep_view();
            let row = rows.pop().unwrap();
            proof {
                assert(row.deep_view() == before[rows.len() as int]);
                assert(rows.deep_view() =~= all.take(rows.len() as int));
            }
            let m = placeholder_from_row(row);
            reversed.push(m);
        }
        while reversed.len() > 0
            invariant
                reversed.len() + found.len() == total,
                total == all.len(),
                forall|k: int|
                    0 <= k < reversed.len() ==> (#[trigger] reversed[k])@ == placeholder_of_row(
                        all[total - 1 - k],
                    ),
                forall|k: int|
                    0 <= k < found.len() ==> (#[trigger] found[k])@ == placeholder_of_row(all[k]),
            decreases reversed.len(),
        {
            let m = reversed.pop().unwrap();
            found.push(m);
        }
        proof {
            assert(found.deep_view() =~= placeholders(self.pattern(), text@));
        }
        found
    }
}

} // verus!
