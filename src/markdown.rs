use vstd::prelude::*;
use crate::text::{chars_of, string_of};

verus! {

/// The opening tag of a strong span.
pub open spec fn strong_open() -> Seq<char> {
    seq!['<', 's', 't', 'r', 'o', 'n', 'g', '>']
}

/// The closing tag of a strong span.
pub open spec fn strong_close() -> Seq<char> {
    seq!['<', '/', 's', 't', 'r', 'o', 'n', 'g', '>']
}

/// The opening tag of an emphasis span.
pub open spec fn em_open() -> Seq<char> {
    seq!['<', 'e', 'm', '>']
}

/// The closing tag of an emphasis span.
pub open spec fn em_close() -> Seq<char> {
    seq!['<', '/', 'e', 'm', '>']
}

/// Starting at `j`, the number of characters before the first `**`, where
/// no line break comes first; `None` where there is no such `**`.
pub open spec fn double_close(s: Seq<char>, j: int) -> Option<nat>
    decreases s.len() - j,
{
    if j < 0 || j + 1 >= s.len() {
        None
    } else if s[j] == '*' && s[j + 1] == '*' {
        Some(0)
    } else if s[j] == '\n' {
        None
    } else {
        match double_close(s, j + 1) {
            Some(n) => Some(n + 1),
            None => None,
        }
    }
}

/// Starting at `j`, the number of characters before the first `*`, where no
/// line break comes first; `None` where there is no such `*`.
pub open spec fn single_close(s: Seq<char>, j: int) -> Option<nat>
    decreases s.len() - j,
{
    if j < 0 || j >= s.len() {
        None
    } else if s[j] == '*' {
        Some(0)
    } else if s[j] == '\n' {
        None
    } else {
        match single_close(s, j + 1) {
            Some(n) => Some(n + 1),
            None => None,
        }
    }
}

/// A closing `**` found from `j` lies within the text.
pub proof fn lemma_double_close_bound(s: Seq<char>, j: int)
    ensures
        double_close(s, j) matches Some(n) ==> 0 <= j && j + n + 2 <= s.len(),
    decreases s.len() - j,
{
    if 0 <= j && j + 1 < s.len() && !(s[j] == '*' && s[j + 1] == '*') && s[j] != '\n' {
        lemma_double_close_bound(s, j + 1);
    }
}

/// A closing `*` found from `j` lies within the text.
pub proof fn lemma_single_close_bound(s: Seq<char>, j: int)
    ensures
        single_close(s, j) matches Some(n) ==> 0 <= j && j + n + 1 <= s.len(),
    decreases s.len() - j,
{
    if 0 <= j && j < s.len() && s[j] != '*' && s[j] != '\n' {
        lemma_single_close_bound(s, j + 1);
    }
}

/// The length of the shortest `**content**` span that opens at `i`, content
/// only, if one does.
pub open spec fn bold_at(s: Seq<char>, i: int) -> Option<nat> {
    if 0 <= i && i + 1 < s.len() && s[i] == '*' && s[i + 1] == '*' {
        double_close(s, i + 2)
    } else {
        None
    }
}

/// The length of the shortest `*content*` span that opens at `i`, content
/// only, if one does.
pub open spec fn italic_at(s: Seq<char>, i: int) -> Option<nat> {
    if 0 <= i && i < s.len() && s[i] == '*' {
        single_close(s, i + 1)
    } else {
        None
    }
}

/// The text from `i` on with each `**content**` span, taken left to right and
/// shortest first, replaced by `<strong>content</strong>`.
pub open spec fn bold_from(s: Seq<char>, i: int) -> Seq<char>
    decreases s.len() - i,
{
    if i < 0 || i >= s.len() {
        Seq::empty()
    } else {
        match bold_at(s, i) {
            Some(n) => {
                proof {
                    lemma_double_close_bound(s, i + 2);
                }
                strong_open() + s.subrange(i + 2, i + 2 + n) + strong_close() + bold_from(
                s,
                i + 4 + n,
            )
            },
            None => seq![s[i]] + bold_from(s, i + 1),
        }
    }
}

/// The text from `i` on with each `*content*` span, taken left to right and
/// shortest first, replaced by `<em>content</em>`.
pub open spec fn italic_from(s: Seq<char>, i: int) -> Seq<char>
    decreases s.len() - i,
{
    if i < 0 || i >= s.len() {
        Seq::empty()
    } else {
        match italic_at(s, i) {
            Some(n) => {
                proof {
                    lemma_single_close_bound(s, i + 1);
                }
                em_open() + s.subrange(i + 1, i + 1 + n) + em_close() + italic_from(
                s,
                i + 2 + n,
            )
            },
            None => seq![s[i]] + italic_from(s, i + 1),
        }
    }
}

/// The HTML for `s`: bold spans first, then italic spans in what that gives.
pub open spec fn markdown_html(s: Seq<char>) -> Seq<char> {
    let b = bold_from(s, 0);
    italic_from(b, 0)
}

fn find_double_close(s: &Vec<char>, j: usize) -> (r: Option<usize>)
    requires
        j <= s.len(),
    ensures
        r matches Some(n) ==> double_close(s@, j as int) == Some(n as nat) && j + n + 2 <= s.len(),
        r is None ==> double_close(s@, j as int) is None,
{
    let mut k: usize = j;
    while s.len() - k > 1
        invariant
            j <= k <= s.len(),
            double_close(s@, j as int) == match double_close(s@, k as int) {
                Some(n) => Some((n + (k - j)) as nat),
                None => None::<nat>,
            },
        decreases s.len() - k,
    {
        if s[k] == '*' && s[k + 1] == '*' {
            return Some(k - j);
        }
        if s[k] == '\n' {
            return None;
        }
        k += 1;
    }
    None
}

fn find_single_close(s: &Vec<char>, j: usize) -> (r: Option<usize>)
    requires
        j <= s.len(),
    ensures
        r matches Some(n) ==> single_close(s@, j as int) == Some(n as nat) && j + n + 1 <= s.len(),
        r is None ==> single_close(s@, j as int) is None,
{
    let mut k: usize = j;
    while k < s.len()
        invariant
            j <= k <= s.len(),
            single_close(s@, j as int) == match single_close(s@, k as int) {
                Some(n) => Some((n + (k - j)) as nat),
                None => None::<nat>,
            },
        decreases s.len() - k,
    {
        if s[k] == '*' {
            return Some(k - j);
        }
        if s[k] == '\n' {
            return None;
        }
        k += 1;
    }
    None
}

/// Appends `src[from..to]` to `out`.
fn append_range(out: &mut Vec<char>, src: &Vec<char>, from: usize, to: usize)
    requires
        from <= to <= src.len(),
    ensures
        final(out)@ == old(out)@ + src@.subrange(from as int, to as int),
{
    let mut i: usize = from;
    while i < to
        invariant
            from <= i <= to <= src.len(),
            out@ == old(out)@ + src@.subrange(from as int, i as int),
        decreases to - i,
    {
        out.push(src[i]);
        i += 1;
        assert(out@ =~= old(out)@ + src@.subrange(from as int, i as int));
    }
}

/// The first pass: every `**content**` span becomes `<strong>content</strong>`.
fn bold_pass(s: &Vec<char>) -> (r: Vec<char>)
    ensures
        r@ == bold_from(s@, 0),
{
    let open_tag: Vec<char> = vec!['<', 's', 't', 'r', 'o', 'n', 'g', '>'];
    let close_tag: Vec<char> = vec!['<', '/', 's', 't', 'r', 'o', 'n', 'g', '>'];
    assert(open_tag@ =~= strong_open());
    assert(close_tag@ =~= strong_close());
    let mut out: Vec<char> = Vec::new();
    let mut i: usize = 0;
    while i < s.len()
        invariant
            i <= s.len(),
            open_tag@ == strong_open(),
            close_tag@ == strong_close(),
            bold_from(s@, 0) == out@ + bold_from(s@, i as int),
        decreases s.len() - i,
    {
        let mut span: Option<usize> = None;
        if s.len() - i > 1 && s[i] == '*' && s[i + 1] == '*' {
            span = find_double_close(s, i + 2);
        }
        assert(span matches Some(n) ==> bold_at(s@, i as int) == Some(n as nat));
        assert(span is None ==> bold_at(s@, i as int) is None);
        match span {
            Some(n) => {
                let ghost before = out@;
                append_range(&mut out, &open_tag, 0, open_tag.len());
                append_range(&mut out, s, i + 2, i + 2 + n);
                append_range(&mut out, &close_tag, 0, close_tag.len());
                assert(open_tag@.subrange(0, open_tag@.len() as int) =~= strong_open());
                assert(close_tag@.subrange(0, close_tag@.len() as int) =~= strong_close());
                assert(out@ =~= before + strong_open() + s@.subrange(i + 2, i + 2 + n)
                    + strong_close());
                i = i + 4 + n;
            },
            None => {
                out.push(s[i]);
                i = i + 1;
            },
        }
        assert(bold_from(s@, 0) =~= out@ + bold_from(s@, i as int));
    }
    assert(out@ =~= out@ + bold_from(s@, i as int));
    out
}

/// The second pass: every `*content*` span becomes `<em>content</em>`.
fn italic_pass(s: &Vec<char>) -> (r: Vec<char>)
    ensures
        r@ == italic_from(s@, 0),
{
    let open_tag: Vec<char> = vec!['<', 'e', 'm', '>'];
    let close_tag: Vec<char> = vec!['<', '/', 'e', 'm', '>'];
    assert(open_tag@ =~= em_open());
    assert(close_tag@ =~= em_close());
    let mut out: Vec<char> = Vec::new();
    let mut i: usize = 0;
    while i < s.len()
        invariant
            i <= s.len(),
            open_tag@ == em_open(),
            close_tag@ == em_close(),
            italic_from(s@, 0) == out@ + italic_from(s@, i as int),
        decreases s.len() - i,
    {
        let mut span: Option<usize> = None;
        if s[i] == '*' {
            span = find_single_close(s, i + 1);
        }
        assert(span matches Some(n) ==> italic_at(s@, i as int) == Some(n as nat));
        assert(span is None ==> italic_at(s@, i as int) is None);
        match span {
            Some(n) => {
                let ghost before = out@;
                append_range(&mut out, &open_tag, 0, open_tag.len());
                append_range(&mut out, s, i + 1, i + 1 + n);
                append_range(&mut out, &close_tag, 0, close_tag.len());
                assert(open_tag@.subrange(0, open_tag@.len() as int) =~= em_open());
                assert(close_tag@.subrange(0, close_tag@.len() as int) =~= em_close());
                assert(out@ =~= before + em_open() + s@.subrange(i + 1, i + 1 + n) + em_close());
                i = i + 2 + n;
            },
            None => {
                out.push(s[i]);
                i = i + 1;
            },
        }
        assert(italic_from(s@, 0) =~= out@ + italic_from(s@, i as int));
    }
    assert(out@ =~= out@ + italic_from(s@, i as int));
    out
}

/// Converts `**bold**` and `*italic*` markers to `<strong>` and `<em>`.
///
/// Bold spans are replaced first, left to right and shortest first; italic
/// spans are then replaced in the result the same way. A span does not cross
/// a line break, and a marker without its closing partner stays as it is.
pub fn markdown_to_html(text: &str) -> (r: String)
    ensures
        r@ == markdown_html(text@),
{
    let chars = chars_of(text);
    let bold = bold_pass(&chars);
    let html = italic_pass(&bold);
    string_of(&html)
}

} // verus!
