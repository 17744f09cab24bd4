//! Extraction of records from log lines by a pattern with named groups.
use vstd::prelude::*;
use vstd::string::StrSliceExecFns;
use crate::record::{Document, Field};

verus! {

#[verifier::external_type_specification]
#[verifier::external_body]
pub struct ExRegex(regex::Regex);

/// Whether the text is a pattern that the regex engine accepts.
pub uninterp spec fn pattern_compiles(pattern: Seq<char>) -> bool;

/// The names of the pattern's capture groups by group index; `None` for the
/// whole match and for unnamed groups.
pub uninterp spec fn group_names_of(pattern: Seq<char>) -> Seq<Option<Seq<char>>>;

/// For each successive non-overlapping match of the pattern in the line, the
/// text of each capture group by group index, `None` where it took no part.
pub uninterp spec fn group_texts_of(pattern: Seq<char>, line: Seq<char>) -> Seq<
    Seq<Option<Seq<char>>>,
>;

/// Relies on regex's `Regex::new`: a regex is made exactly when the pattern
/// is accepted.
#[verifier::external_body]
fn compile(pattern: &str) -> (r: Option<regex::Regex>)
    ensures
        r is Some <==> pattern_compiles(pattern@),
{
    regex::Regex::new(pattern).ok()
}

/// A compiled pattern, with the text it was compiled from.
pub struct Extractor {
    pattern: String,
    regex: regex::Regex,
}

impl View for Extractor {
    type V = Seq<char>;

    closed spec fn view(&self) -> Seq<char> {
        self.pattern@
    }
}

/// Relies on regex's `Regex::capture_names` for the regex that
/// `Extractor::new` compiled from the extractor's pattern.
#[verifier::external_body]
fn group_names(ex: &Extractor) -> (r: Vec<Option<String>>)
    ensures
        r.deep_view() == group_names_of(ex@),
{
    ex.regex.capture_names().map(|n| n.map(|s| s.to_owned())).collect()
}

/// Relies on regex's `Regex::captures_iter` and `Captures::iter` for the regex
/// that `Extractor::new` compiled from the extractor's pattern.
#[verifier::external_body]
fn group_texts(ex: &Extractor, line: &str) -> (r: Vec<Vec<Option<String>>>)
    ensures
        r.deep_view() == group_texts_of(ex@, line@),
{
    ex.regex.captures_iter(line).map(|c| c.iter().map(|m| m.map(|m| m.as_str().to_owned())).collect()).collect()
}

/// The fields that groups `0..k` of one match give: each group with a name
/// whose text is not empty, in group order.
pub open spec fn groups_fields(
    names: Seq<Option<Seq<char>>>,
    texts: Seq<Option<Seq<char>>>,
    k: int,
) -> Seq<(Seq<char>, Seq<char>)>
    decreases k,
{
    if k <= 0 {
        Seq::empty()
    } else {
        let before = groups_fields(names, texts, k - 1);
        let i = k - 1;
        if i < names.len() && i < texts.len() && names[i] is Some && texts[i] is Some
            && texts[i].unwrap().len() > 0 {
            before.push((names[i].unwrap(), texts[i].unwrap()))
        } else {
            before
        }
    }
}

/// The fields of the first `m` matches, one match after another.
pub open spec fn matches_fields(
    names: Seq<Option<Seq<char>>>,
    matches: Seq<Seq<Option<Seq<char>>>>,
    m: int,
) -> Seq<(Seq<char>, Seq<char>)>
    decreases m,
{
    if m <= 0 {
        Seq::empty()
    } else {
        matches_fields(names, matches, m - 1) + groups_fields(names, matches[m - 1], names.len() as int)
    }
}

/// The record of a line: the fields of all its matches.
pub open spec fn line_record(
    names: Seq<Option<Seq<char>>>,
    matches: Seq<Seq<Option<Seq<char>>>>,
) -> Seq<(Seq<char>, Seq<char>)> {
    matches_fields(names, matches, matches.len() as int)
}

/// Builds the record of a line from the group names of the pattern and the
/// group texts of each match: one field per named group that matched a
/// non-empty text, by match and then by group order. A line without such
/// groups gives an empty record.
pub fn record_from_groups(names: &Vec<Option<String>>, matches: &Vec<Vec<Option<String>>>) -> (r:
    Document)
    ensures
        r@ == line_record(names.deep_view(), matches.deep_view()),
{
    let ghost nv = names.deep_view();
    let ghost mv = matches.deep_view();
    let mut fields: Vec<Field> = Vec::new();
    let mut m: usize = 0;
    while m < matches.len()
        invariant
            m <= matches@.len(),
            nv == names.deep_view(),
            mv == matches.deep_view(),
            fields@.map_values(|f: Field| f@) == matches_fields(nv, mv, m as int),
        decreases matches@.len() - m,
    {
        let texts = &matches[m];
        assert(texts.deep_view() == mv[m as int]);
        let ghost at_match = fields@.map_values(|f: Field| f@);
        let mut k: usize = 0;
        while k < names.len()
            invariant
                k <= names@.len(),
                m < matches@.len(),
                nv == names.deep_view(),
                mv == matches.deep_view(),
                texts.deep_view() == mv[m as int],
                fields@.map_values(|f: Field| f@) == at_match + groups_fields(nv, mv[m as int], k as int),
            decreases names@.len() - k,
        {
            if k < texts.len() {
                match (&names[k], &texts[k]) {
                    (Some(name), Some(text)) => {
                        assert(nv[k as int] == Some(name@));
                        assert(mv[m as int][k as int] == Some(text@));
                        if !text.as_str().is_empty() {
                            let ghost before = fields@;
                            fields.push(Field { name: name.clone(), content: text.clone() });
                            assert(fields@.map_values(|f: Field| f@) =~= before.map_values(
                                |f: Field| f@,
                            ).push((name@, text@)));
                        }
                    },
                    _ => {},
                }
            }
            k = k + 1;
        }
        m = m + 1;
    }
    Document { fields }
}

/// A line as read from a file, without its terminator: one trailing `\n`,
/// and a `\r` just before it.
pub open spec fn line_content(s: Seq<char>) -> Seq<char> {
    if s.len() >= 2 && s[s.len() - 2] == '\r' && s[s.len() - 1] == '\n' {
        s.subrange(0, s.len() - 2)
    } else if s.len() >= 1 && s[s.len() - 1] == '\n' {
        s.subrange(0, s.len() - 1)
    } else {
        s
    }
}

/// The line without its terminator, so that a pattern anchored with `$`
/// sees the end of the text.
pub fn strip_line_end<'a>(line: &'a str) -> (r: &'a str)
    ensures
        r@ == line_content(line@),
{
    let n = line.unicode_len();
    if n >= 1 && line.get_char(n - 1) == '\n' {
        if n >= 2 && line.get_char(n - 2) == '\r' {
            line.substring_char(0, n - 2)
        } else {
            line.substring_char(0, n - 1)
        }
    } else {
        assert(line@.subrange(0, line@.len() as int) =~= line@);
        line
    }
}

impl Extractor {
    /// Compiles `pattern`, or gives `None` where the regex engine refuses it.
    pub fn new(pattern: &str) -> (r: Option<Extractor>)
        ensures
            r is Some <==> pattern_compiles(pattern@),
            r matches Some(e) ==> e@ == pattern@,
    {
        match compile(pattern) {
            Some(regex) => Some(Extractor { pattern: pattern.to_owned(), regex }),
            None => None,
        }
    }

    /// The record of one log line.
    pub fn extract(&self, line: &str) -> (r: Document)
        ensures
            r@ == line_record(group_names_of(self@), group_texts_of(self@, line@)),
    {
        let names = group_names(self);
        let matches = group_texts(self, line);
        record_from_groups(&names, &matches)
    }
}

proof fn lemma_groups_fields_nonempty(
    names: Seq<Option<Seq<char>>>,
    texts: Seq<Option<Seq<char>>>,
    k: int,
)
    ensures
        forall|i: int|
            0 <= i < groups_fields(names, texts, k).len() ==> (#[trigger] groups_fields(
                names,
                texts,
                k,
            )[i]).1.len() > 0,
    decreases k,
{
    if k > 0 {
        lemma_groups_fields_nonempty(names, texts, k - 1);
        let before = groups_fields(names, texts, k - 1);
        let g = groups_fields(names, texts, k);
        assert forall|i: int| 0 <= i < g.len() implies (#[trigger] g[i]).1.len() > 0 by {
            if i < before.len() {
                assert(g[i] == before[i]);
            }
        }
    }
}

/// Groups that matched an empty text give no field: every field of a line's
/// record has non-empty content.
pub proof fn lemma_no_empty_fields(names: Seq<Option<Seq<char>>>, matches: Seq<Seq<Option<Seq<char>>>>)
    ensures
        forall|i: int|
            0 <= i < line_record(names, matches).len() ==> (#[trigger] line_record(names, matches)[i]).1.len()
                > 0,
{
    lemma_matches_fields_nonempty(names, matches, matches.len() as int);
}

proof fn lemma_matches_fields_nonempty(
    names: Seq<Option<Seq<char>>>,
    matches: Seq<Seq<Option<Seq<char>>>>,
    m: int,
)
    ensures
        forall|i: int|
            0 <= i < matches_fields(names, matches, m).len() ==> (#[trigger] matches_fields(
                names,
                matches,
                m,
            )[i]).1.len() > 0,
    decreases m,
{
    if m > 0 {
        lemma_matches_fields_nonempty(names, matches, m - 1);
        lemma_groups_fields_nonempty(names, matches[m - 1], names.len() as int);
        let a = matches_fields(names, matches, m - 1);
        let b = groups_fields(names, matches[m - 1], names.len() as int);
        assert forall|i: int| 0 <= i < (a + b).len() implies (#[trigger] (a + b)[i]).1.len() > 0 by {
            if i < a.len() {
                assert((a + b)[i] == a[i]);
            } else {
                assert((a + b)[i] == b[i - a.len()]);
            }
        }
    }
}

} // verus!
