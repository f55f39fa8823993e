use vstd::prelude::*;
use crate::text::{lower_of, lowercase};

verus! {

#[verifier::external_type_specification]
#[verifier::external_body]
pub struct ExRegex(regex::Regex);

#[verifier::external_type_specification]
#[verifier::external_body]
pub struct ExRegexError(regex::Error);

/// Whether `Regex::new` accepts the pattern `p`.
pub uninterp spec fn pattern_valid(p: Seq<char>) -> bool;

/// The groups of the leftmost-first match of pattern `p` in `t` (group 0 being
/// the whole match, a group that took no part in the match being `None`), or
/// `None` where `p` matches nowhere in `t`.
pub uninterp spec fn captures_of(p: Seq<char>, t: Seq<char>) -> Option<Seq<Option<Seq<char>>>>;

/// The failure of a pattern-based operation.
#[derive(Debug, Clone, PartialEq, Eq)]
pub enum PatternError {
    /// `pattern` is not a valid regular expression; `message` is the
    /// diagnostic of the regex engine.
    InvalidPattern { pattern: String, message: String },
}

impl PatternError {
    /// The characters of the pattern that failed.
    pub open spec fn pattern_view(&self) -> Seq<char> {
        match self {
            PatternError::InvalidPattern { pattern, .. } => pattern@,
        }
    }

    /// The characters of the engine's diagnostic.
    pub open spec fn message_view(&self) -> Seq<char> {
        match self {
            PatternError::InvalidPattern { message, .. } => message@,
        }
    }

    /// A readable description of the failure:
    /// `Invalid regex pattern '<pattern>': <message>`.
    pub fn describe(&self) -> (r: String)
        ensures
            r@ == "Invalid regex pattern '"@ + self.pattern_view() + "': "@ + self.message_view(),
    {
        match self {
            PatternError::InvalidPattern { pattern, message } => {
                let mut r = String::from_str("Invalid regex pattern '");
                r.append(pattern.as_str());
                r.append("': ");
                r.append(message.as_str());
                r
            },
        }
    }
}

/// A compiled pattern together with the source it was compiled from.
pub(crate) struct Matcher {
    re: regex::Regex,
    source: String,
}

impl Matcher {
    pub(crate) closed spec fn source(&self) -> Seq<char> {
        self.source@
    }
}

/// Relies on `regex::Regex::new`: it compiles `p` exactly when `p` is valid.
#[verifier::external_body]
fn compile(p: &str) -> (r: Result<Matcher, regex::Error>)
    ensures
        r is Ok <==> pattern_valid(p@),
        r matches Ok(m) ==> m.source() == p@,
{
    match regex::Regex::new(p) {
        Ok(re) => Ok(Matcher { re, source: p.to_string() }),
        Err(e) => Err(e),
    }
}

/// Relies on `regex::Error`'s `Display`: the engine's diagnostic text.
#[verifier::external_body]
fn error_message(e: &regex::Error) -> (r: String) {
    e.to_string()
}

/// The characters of each group.
pub open spec fn groups_view(g: Seq<Option<String>>) -> Seq<Option<Seq<char>>> {
    g.map_values(|o: Option<String>| match o {
        Some(s) => Some(s@),
        None => None,
    })
}

/// Relies on `regex::Regex::captures`, its groups read out in order: the
/// groups of the leftmost-first match of the matcher's pattern in `text`.
#[verifier::external_body]
fn captures_in(m: &Matcher, text: &str) -> (r: Option<Vec<Option<String>>>)
    ensures
        match r {
            Some(g) => captures_of(m.source(), text@) == Some(groups_view(g@)),
            None => captures_of(m.source(), text@) is None,
        },
{
    m.re.captures(text).map(|c| c.iter().map(|g| g.map(|x| x.as_str().to_string())).collect())
}

/// Compiles `p`, turning a failure into the library's error.
fn compile_checked(p: &str) -> (r: Result<Matcher, PatternError>)
    ensures
        r is Ok <==> pattern_valid(p@),
        r matches Ok(m) ==> m.source() == p@,
        r matches Err(e) ==> e.pattern_view() == p@,
{
    match compile(p) {
        Ok(m) => Ok(m),
        Err(e) => Err(PatternError::InvalidPattern { pattern: p.to_string(), message: error_message(&e) }),
    }
}

/// Group `i` of a match, if there is a match and that group took part in it.
pub open spec fn group_at(c: Option<Seq<Option<Seq<char>>>>, i: int) -> Option<Seq<char>> {
    match c {
        Some(g) => if 0 <= i < g.len() {
            g[i]
        } else {
            None
        },
        None => None,
    }
}

/// The characters of an optional string.
pub open spec fn opt_view(o: Option<String>) -> Option<Seq<char>> {
    match o {
        Some(s) => Some(s@),
        None => None,
    }
}

/// Group `i` of a match's groups (group 0 being the whole match), or `None`
/// where there is no such group or it took no part in the match.
pub fn capture_group(g: &Vec<Option<String>>, i: usize) -> (r: Option<String>)
    ensures
        opt_view(r) == (if i < g@.len() { groups_view(g@)[i as int] } else { None }),
{
    if i < g.len() {
        match &g[i] {
            Some(s) => Some(s.clone()),
            None => None,
        }
    } else {
        None
    }
}

/// Extracts the first capture group of the first match of `pattern` in the
/// lowercased `text`.
///
/// Fails with `InvalidPattern` exactly when `pattern` does not compile. Gives
/// `None` where the pattern matches nowhere, or where its first group took no
/// part in the match (also when the pattern has no group at all).
pub fn extract_url_from_text(text: &str, pattern: &str) -> (r: Result<Option<String>, PatternError>)
    ensures
        r is Ok <==> pattern_valid(pattern@),
        r matches Ok(o) ==> opt_view(o) == group_at(captures_of(pattern@, lower_of(text@)), 1),
        r matches Err(e) ==> e.pattern_view() == pattern@,
        pattern_valid(pattern@) && captures_of(pattern@, lower_of(text@)) is None ==> r matches Ok(
            None,
        ),
{
    let m = compile_checked(pattern)?;
    let text_lower = lowercase(text);
    match captures_in(&m, text_lower.as_str()) {
        Some(g) => Ok(capture_group(&g, 1)),
        None => Ok(None),
    }
}

/// The characters of each pattern.
pub open spec fn patterns_view(ps: Seq<&str>) -> Seq<Seq<char>> {
    ps.map_values(|p: &str| p@)
}

/// The characters of each (pattern, match) pair.
pub open spec fn pairs_view(v: Seq<(String, String)>) -> Seq<(Seq<char>, Seq<char>)> {
    v.map_values(|x: (String, String)| (x.0@, x.1@))
}

/// Every pattern of `ps` compiles.
pub open spec fn all_valid(ps: Seq<Seq<char>>) -> bool {
    forall|i: int| 0 <= i < ps.len() ==> pattern_valid(#[trigger] ps[i])
}

/// `ps[i]` is the first pattern of `ps` that does not compile.
pub open spec fn first_invalid(ps: Seq<Seq<char>>, i: int) -> bool {
    &&& 0 <= i < ps.len()
    &&& !pattern_valid(ps[i])
    &&& forall|j: int| 0 <= j < i ==> pattern_valid(#[trigger] ps[j])
}

/// For each pattern of `ps` in order, the pattern and its first whole match in
/// `t`, skipping the patterns that match nowhere.
pub open spec fn scan(ps: Seq<Seq<char>>, t: Seq<char>) -> Seq<(Seq<char>, Seq<char>)>
    decreases ps.len(),
{
    if ps.len() == 0 {
        Seq::empty()
    } else {
        let prev = scan(ps.drop_last(), t);
        match group_at(captures_of(ps.last(), t), 0) {
            Some(m) => prev.push((ps.last(), m)),
            None => prev,
        }
    }
}

/// Finds, for each pattern in order, its first match in the lowercased `text`,
/// and lists the patterns that matched with the matched text.
///
/// All or nothing: where some pattern does not compile, the call fails with
/// `InvalidPattern` for the first such pattern and returns no partial result.
pub fn find_all_patterns(text: &str, patterns: Vec<&str>) -> (r: Result<
    Vec<(String, String)>,
    PatternError,
>)
    ensures
        r is Ok <==> all_valid(patterns_view(patterns@)),
        r matches Ok(v) ==> pairs_view(v@) == scan(patterns_view(patterns@), lower_of(text@)),
        r matches Err(e) ==> exists|i: int|
            first_invalid(patterns_view(patterns@), i) && e.pattern_view() == #[trigger] patterns_view(
                patterns@,
            )[i],
{
    let ghost pv = patterns_view(patterns@);
    let text_lower = lowercase(text);
    let mut results: Vec<(String, String)> = Vec::new();
    let mut i: usize = 0;
    while i < patterns.len()
        invariant
            i <= patterns.len(),
            pv == patterns_view(patterns@),
            text_lower@ == lower_of(text@),
            forall|j: int| 0 <= j < i ==> pattern_valid(#[trigger] pv[j]),
            pairs_view(results@) == scan(pv.take(i as int), text_lower@),
        decreases patterns.len() - i,
    {
        let p = patterns[i];
        let m = match compile_checked(p) {
            Ok(m) => m,
            Err(e) => {
                assert(first_invalid(pv, i as int));
                return Err(e);
            },
        };
        let ghost prefix = pv.take(i as int + 1);
        assert(prefix.drop_last() =~= pv.take(i as int));
        assert(prefix.last() == p@);
        if let Some(g) = captures_in(&m, text_lower.as_str()) {
            if let Some(found) = capture_group(&g, 0) {
                results.push((p.to_string(), found));
                assert(pairs_view(results@) =~= scan(prefix, text_lower@));
            }
        }
        i += 1;
    }
    assert(pv.take(patterns.len() as int) =~= pv);
    Ok(results)
}

/// The positions in `ps` of the patterns that `scan` reports, in order.
pub open spec fn scan_sources(ps: Seq<Seq<char>>, t: Seq<char>) -> Seq<int>
    decreases ps.len(),
{
    if ps.len() == 0 {
        Seq::empty()
    } else {
        let prev = scan_sources(ps.drop_last(), t);
        if group_at(captures_of(ps.last(), t), 0) is Some {
            prev.push(ps.len() - 1)
        } else {
            prev
        }
    }
}

/// The scan keeps the order of the patterns and reports each at most once:
/// its k-th entry names the pattern at position `scan_sources(ps, t)[k]`, and
/// those positions strictly increase.
pub proof fn lemma_scan_order(ps: Seq<Seq<char>>, t: Seq<char>)
    ensures
        scan(ps, t).len() == scan_sources(ps, t).len(),
        scan(ps, t).len() <= ps.len(),
        forall|k: int|
            0 <= k < scan(ps, t).len() ==> {
                &&& 0 <= #[trigger] scan_sources(ps, t)[k] < ps.len()
                &&& scan(ps, t)[k].0 == ps[scan_sources(ps, t)[k]]
            },
        forall|k1: int, k2: int|
            0 <= k1 < k2 < scan(ps, t).len() ==> #[trigger] scan_sources(ps, t)[k1]
                < #[trigger] scan_sources(ps, t)[k2],
    decreases ps.len(),
{
    if ps.len() > 0 {
        let front = ps.drop_last();
        lemma_scan_order(front, t);
        assert forall|k: int| 0 <= k < scan(front, t).len() implies #[trigger] scan_sources(
            front,
            t,
        )[k] < ps.len() - 1 && ps[scan_sources(front, t)[k]] == front[scan_sources(front, t)[k]] by {
        }
    }
}

} // verus!
