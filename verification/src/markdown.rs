use vstd::prelude::*;

use crate::article::Article;
use crate::errors::PipelineError;
use crate::text::chars_eq;
use crate::text::chars_of;
use crate::text::is_space_char;
use crate::text::trimmed;

verus! {

/// Metadata decoded from the document's preamble block.
#[derive(Debug, Clone, Default)]
pub struct Frontmatter {
    /// Article title
    pub title: Option<String>,
    /// Article tags
    pub tags: Vec<String>,
    /// Canonical URL
    pub canonical_url: Option<String>,
    /// Publication status
    pub published: bool,
    /// Cover image URL
    pub cover_image: Option<String>,
    /// Article description
    pub description: Option<String>,
}

/// The mathematical model of a decoded preamble.
pub struct FrontmatterModel {
    pub title: Option<Seq<char>>,
    pub tags: Seq<Seq<char>>,
    pub canonical_url: Option<Seq<char>>,
    pub published: bool,
    pub cover_image: Option<Seq<char>>,
    pub description: Option<Seq<char>>,
}

/// The model of a fully parsed article.
pub struct ArticleModel {
    pub title: Seq<char>,
    pub content: Seq<char>,
    pub tags: Seq<Seq<char>>,
    pub canonical_url: Option<Seq<char>>,
    pub published: bool,
    pub cover_image: Option<Seq<char>>,
    pub description: Option<Seq<char>>,
}

/// What parsing a document comes to.
pub enum ParseOutcome {
    Success(ArticleModel),
    NoPreamble,
    BadSyntax,
    Conflict(Seq<char>, Seq<char>),
    NoTitle,
}

/// The decoded preamble before any line is read: no optional field, no
/// tags, published.
pub open spec fn default_model() -> FrontmatterModel {
    FrontmatterModel {
        title: None,
        tags: Seq::empty(),
        canonical_url: None,
        published: true,
        cover_image: None,
        description: None,
    }
}

/// Offset of the first occurrence of a character, or the length if
/// there is none.
pub open spec fn first_of(s: Seq<char>, c: char) -> nat
    decreases s.len(),
{
    if s.len() == 0 {
        0
    } else if s[0] == c {
        0
    } else {
        1 + first_of(s.drop_first(), c)
    }
}

/// Offset of the first line break, or the length if there is none.
pub open spec fn first_nl(s: Seq<char>) -> nat {
    first_of(s, '\n')
}

/// A line without its trailing carriage return, if it has one.
pub open spec fn chomp_cr(l: Seq<char>) -> Seq<char> {
    if l.len() > 0 && l.last() == '\r' {
        l.drop_last()
    } else {
        l
    }
}

/// The first line of the text, without line ending.
pub open spec fn line_at(s: Seq<char>) -> Seq<char> {
    chomp_cr(s.take(first_nl(s) as int))
}

/// Whether the first line is terminated by a line break.
pub open spec fn line_has_nl(s: Seq<char>) -> bool {
    first_nl(s) < s.len()
}

/// The text after the first line and its line break.
pub open spec fn rest_after_line(s: Seq<char>) -> Seq<char> {
    if line_has_nl(s) {
        s.skip(first_nl(s) + 1 as int)
    } else {
        Seq::empty()
    }
}

/// Whether a line is a preamble fence.
pub open spec fn is_delim(l: Seq<char>) -> bool {
    l == seq!['-', '-', '-']
}

/// Split the text that follows the opening fence at the closing fence:
/// the key-value lines before it (carriage returns dropped) and the body
/// after it. Without a closing fence there is no preamble.
pub open spec fn find_close(u: Seq<char>) -> Option<(Seq<Seq<char>>, Seq<char>)>
    decreases u.len(),
{
    if is_delim(line_at(u)) {
        Some((Seq::empty(), rest_after_line(u)))
    } else if !line_has_nl(u) {
        None
    } else {
        match find_close(rest_after_line(u)) {
            None => None,
            Some(p) => Some((seq![line_at(u)] + p.0, p.1)),
        }
    }
}

/// Whether a line holds nothing but whitespace.
pub open spec fn all_space(l: Seq<char>) -> bool {
    forall|k: int| 0 <= k < l.len() ==> is_space_char(#[trigger] l[k])
}

/// Whether the whole key-value region is blank.
pub open spec fn all_blank_lines(lines: Seq<Seq<char>>) -> bool {
    forall|i: int| 0 <= i < lines.len() ==> all_space(#[trigger] lines[i])
}

/// Offset of the first colon in a line, or the length if there is none.
pub open spec fn first_colon(s: Seq<char>) -> nat {
    first_of(s, ':')
}

/// Offset of the first comma, or the length if there is none.
pub open spec fn first_comma(s: Seq<char>) -> nat {
    first_of(s, ',')
}

/// Whether an unquoted scalar contains a colon followed by a space,
/// which the preamble syntax rejects as an ambiguous mapping.
pub open spec fn has_colon_space(v: Seq<char>) -> bool {
    exists|k: int| 0 <= k && k + 1 < v.len() && (#[trigger] v[k]) == ':' && v[k + 1] == ' '
}

/// The value of a trimmed scalar: quoted text is taken verbatim between
/// the quotes; unquoted text must be neither a list nor contain an
/// ambiguous colon.
pub open spec fn scalar_value(v: Seq<char>) -> Option<Seq<char>> {
    if v.len() >= 1 && v[0] == '"' {
        if v.len() >= 2 && v.last() == '"' {
            Some(v.subrange(1, v.len() - 1))
        } else {
            None
        }
    } else if v.len() >= 1 && v[0] == '[' {
        None
    } else if has_colon_space(v) {
        None
    } else {
        Some(v)
    }
}

/// The value of a trimmed list item: it must not be empty, and may be
/// quoted.
pub open spec fn item_value(w: Seq<char>) -> Option<Seq<char>> {
    if w.len() == 0 {
        None
    } else if w[0] == '"' {
        if w.len() >= 2 && w.last() == '"' {
            Some(w.subrange(1, w.len() - 1))
        } else {
            None
        }
    } else {
        Some(w)
    }
}

/// Split a flow-list interior at its commas.
pub open spec fn split_commas(v: Seq<char>) -> Seq<Seq<char>>
    decreases v.len(),
{
    let c = first_comma(v);
    if c >= v.len() {
        seq![v]
    } else {
        seq![v.take(c as int)] + split_commas(v.skip(c + 1 as int))
    }
}

/// The values of the split list items, each trimmed; any bad item spoils
/// the list.
pub open spec fn items_values(items: Seq<Seq<char>>) -> Option<Seq<Seq<char>>>
    decreases items.len(),
{
    if items.len() == 0 {
        Some(Seq::empty())
    } else {
        match items_values(items.drop_last()) {
            None => None,
            Some(vs) => match item_value(trimmed(items.last())) {
                None => None,
                Some(w) => Some(vs.push(w)),
            },
        }
    }
}

/// The value of a trimmed flow list `[ ... ]`.
pub open spec fn list_value(v: Seq<char>) -> Option<Seq<Seq<char>>> {
    if v.len() >= 2 && v[0] == '[' && v.last() == ']' {
        let inner = v.subrange(1, v.len() - 1);
        if trimmed(inner).len() == 0 {
            Some(Seq::empty())
        } else {
            items_values(split_commas(inner))
        }
    } else {
        None
    }
}

pub open spec fn key_title() -> Seq<char> {
    seq!['t', 'i', 't', 'l', 'e']
}

pub open spec fn key_tags() -> Seq<char> {
    seq!['t', 'a', 'g', 's']
}

pub open spec fn key_canonical_url() -> Seq<char> {
    seq!['c', 'a', 'n', 'o', 'n', 'i', 'c', 'a', 'l', '_', 'u', 'r', 'l']
}

pub open spec fn key_published() -> Seq<char> {
    seq!['p', 'u', 'b', 'l', 'i', 's', 'h', 'e', 'd']
}

pub open spec fn key_cover_image() -> Seq<char> {
    seq!['c', 'o', 'v', 'e', 'r', '_', 'i', 'm', 'a', 'g', 'e']
}

pub open spec fn key_description() -> Seq<char> {
    seq!['d', 'e', 's', 'c', 'r', 'i', 'p', 't', 'i', 'o', 'n']
}

pub open spec fn chars_true() -> Seq<char> {
    seq!['t', 'r', 'u', 'e']
}

pub open spec fn chars_false() -> Seq<char> {
    seq!['f', 'a', 'l', 's', 'e']
}

/// Read one key-value line into the model. A blank line changes
/// nothing; an unknown key is ignored; a line without a colon, an empty
/// key, a missing space after the colon, or a malformed value is a
/// syntax error.
pub open spec fn apply_line(m: FrontmatterModel, l: Seq<char>) -> Option<FrontmatterModel> {
    if all_space(l) {
        Some(m)
    } else {
        let ci = first_colon(l);
        if ci >= l.len() {
            None
        } else {
            let key = trimmed(l.take(ci as int));
            let rest = l.skip(ci + 1 as int);
            if key.len() == 0 {
                None
            } else if rest.len() > 0 && !(rest[0] == ' ' || rest[0] == '\t') {
                None
            } else {
                let v = trimmed(rest);
                if key == key_title() {
                    if v.len() == 0 {
                        Some(FrontmatterModel { title: None, ..m })
                    } else {
                        match scalar_value(v) {
                            None => None,
                            Some(t) => Some(FrontmatterModel { title: Some(t), ..m }),
                        }
                    }
                } else if key == key_tags() {
                    if v.len() == 0 {
                        None
                    } else {
                        match list_value(v) {
                            None => None,
                            Some(ts) => Some(FrontmatterModel { tags: ts, ..m }),
                        }
                    }
                } else if key == key_canonical_url() {
                    if v.len() == 0 {
                        Some(FrontmatterModel { canonical_url: None, ..m })
                    } else {
                        match scalar_value(v) {
                            None => None,
                            Some(t) => Some(FrontmatterModel { canonical_url: Some(t), ..m }),
                        }
                    }
                } else if key == key_published() {
                    if v == chars_true() {
                        Some(FrontmatterModel { published: true, ..m })
                    } else if v == chars_false() {
                        Some(FrontmatterModel { published: false, ..m })
                    } else {
                        None
                    }
                } else if key == key_cover_image() {
                    if v.len() == 0 {
                        Some(FrontmatterModel { cover_image: None, ..m })
                    } else {
                        match scalar_value(v) {
                            None => None,
                            Some(t) => Some(FrontmatterModel { cover_image: Some(t), ..m }),
                        }
                    }
                } else if key == key_description() {
                    if v.len() == 0 {
                        Some(FrontmatterModel { description: None, ..m })
                    } else {
                        match scalar_value(v) {
                            None => None,
                            Some(t) => Some(FrontmatterModel { description: Some(t), ..m }),
                        }
                    }
                } else {
                    Some(m)
                }
            }
        }
    }
}

/// Decode the key-value region line by line, first line first; a later
/// assignment to a key wins.
pub open spec fn decode_lines(lines: Seq<Seq<char>>) -> Option<FrontmatterModel>
    decreases lines.len(),
{
    if lines.len() == 0 {
        Some(default_model())
    } else {
        match decode_lines(lines.drop_last()) {
            None => None,
            Some(m) => apply_line(m, lines.last()),
        }
    }
}

/// Strip every repetition of the heading marker prefix `# `.
pub open spec fn strip_h1_marks(t: Seq<char>) -> Seq<char>
    decreases t.len(),
{
    if t.len() >= 2 && t[0] == '#' && t[1] == ' ' {
        strip_h1_marks(t.skip(2))
    } else {
        t
    }
}

/// The title a single line contributes: the line, trimmed, must start
/// with a single-level heading marker and a space, and what is left
/// after the marker prefix, trimmed, must be non-empty.
pub open spec fn h1_candidate(l: Seq<char>) -> Option<Seq<char>> {
    let t = trimmed(l);
    if t.len() >= 2 && t[0] == '#' && t[1] == ' ' {
        let x = trimmed(strip_h1_marks(t));
        if x.len() > 0 {
            Some(x)
        } else {
            None
        }
    } else {
        None
    }
}

/// The first single-level heading title of the body, scanning line by
/// line; empty headings are passed over.
pub open spec fn first_h1(s: Seq<char>) -> Option<Seq<char>>
    decreases s.len(),
{
    match h1_candidate(line_at(s)) {
        Some(t) => Some(t),
        None => {
            if line_has_nl(s) {
                first_h1(rest_after_line(s))
            } else {
                None
            }
        },
    }
}

/// A preamble title that is empty after trimming does not count as a
/// title.
pub open spec fn effective_title(m: FrontmatterModel) -> Option<Seq<char>> {
    match m.title {
        Some(t) => {
            if trimmed(t).len() == 0 {
                None
            } else {
                Some(t)
            }
        },
        None => None,
    }
}

/// Resolve the canonical title from the preamble and the body's leading
/// heading, and assemble the article model.
pub open spec fn resolve(m: FrontmatterModel, body: Seq<char>) -> ParseOutcome {
    let h = first_h1(body);
    let assembled = |title: Seq<char>|
        ArticleModel {
            title,
            content: body,
            tags: m.tags,
            canonical_url: m.canonical_url,
            published: m.published,
            cover_image: m.cover_image,
            description: m.description,
        };
    match (effective_title(m), h) {
        (Some(t), Some(hb)) => {
            if trimmed(t) == hb {
                ParseOutcome::Success(assembled(t))
            } else {
                ParseOutcome::Conflict(t, hb)
            }
        },
        (Some(t), None) => ParseOutcome::Success(assembled(t)),
        (None, Some(hb)) => ParseOutcome::Success(assembled(hb)),
        (None, None) => ParseOutcome::NoTitle,
    }
}

/// What parsing the whole document comes to: preamble split, key-value
/// decode, and title resolution.
pub open spec fn parse_spec(s: Seq<char>) -> ParseOutcome {
    if !(is_delim(line_at(s)) && line_has_nl(s)) {
        ParseOutcome::NoPreamble
    } else {
        match find_close(rest_after_line(s)) {
            None => ParseOutcome::NoPreamble,
            Some(p) => {
                if all_blank_lines(p.0) {
                    ParseOutcome::NoPreamble
                } else {
                    match decode_lines(p.0) {
                        None => ParseOutcome::BadSyntax,
                        Some(m) => resolve(m, p.1),
                    }
                }
            },
        }
    }
}

/// Whether an optional string is exactly an optional character sequence.
pub open spec fn opt_matches(o: Option<String>, v: Option<Seq<char>>) -> bool {
    match (o, v) {
        (Some(a), Some(b)) => a@ == b,
        (None, None) => true,
        _ => false,
    }
}

/// Whether a decoded preamble is exactly its model.
pub open spec fn fm_matches(f: Frontmatter, m: FrontmatterModel) -> bool {
    &&& opt_matches(f.title, m.title)
    &&& f.tags.deep_view() == m.tags
    &&& opt_matches(f.canonical_url, m.canonical_url)
    &&& f.published == m.published
    &&& opt_matches(f.cover_image, m.cover_image)
    &&& opt_matches(f.description, m.description)
}

/// Whether an article is exactly its model.
pub open spec fn article_matches(a: Article, m: ArticleModel) -> bool {
    &&& a.title@ == m.title
    &&& a.content@ == m.content
    &&& a.tags.deep_view() == m.tags
    &&& opt_matches(a.canonical_url, m.canonical_url)
    &&& a.published == m.published
    &&& opt_matches(a.cover_image, m.cover_image)
    &&& opt_matches(a.description, m.description)
}

/// The parsing contract: the returned article or error is fixed by the
/// model of the input document.
pub open spec fn parse_post(s: Seq<char>, r: Result<Article, PipelineError>) -> bool {
    match parse_spec(s) {
        ParseOutcome::Success(m) => r matches Ok(a) && article_matches(a, m),
        ParseOutcome::NoPreamble => r matches Err(e) && e is MissingPreamble,
        ParseOutcome::BadSyntax => r matches Err(e) && e is InvalidPreambleSyntax,
        ParseOutcome::Conflict(ft, hb) => r matches Err(e) && (e matches PipelineError::TitleConflict {
            preamble_title,
            body_title,
        } && preamble_title@ == ft && body_title@ == hb),
        ParseOutcome::NoTitle => r matches Err(e) && e is MissingTitle,
    }
}

proof fn lemma_first_of_at(t: Seq<char>, c: char, n: int)
    requires
        0 <= n <= t.len(),
        forall|k: int| 0 <= k < n ==> t[k] != c,
        n < t.len() ==> t[n] == c,
    ensures
        first_of(t, c) == n,
    decreases n,
{
    if n > 0 {
        assert(t[0] != c);
        lemma_first_of_at(t.drop_first(), c, n - 1);
    }
}

/// Position of the first occurrence of a character at or after `p`, or
/// the end of the vector.
fn find_char_from(cs: &Vec<char>, p: usize, c: char) -> (e: usize)
    requires
        p <= cs.len(),
    ensures
        p <= e <= cs.len(),
        e - p == first_of(cs@.skip(p as int), c),
        e < cs.len() ==> cs@[e as int] == c,
        forall|k: int| p <= k < e ==> cs@[k] != c,
{
    let mut e: usize = p;
    while e < cs.len() && cs[e] != c
        invariant
            p <= e <= cs.len(),
            forall|k: int| p <= k < e ==> cs@[k] != c,
        decreases cs.len() - e,
    {
        e = e + 1;
    }
    proof {
        let t = cs@.skip(p as int);
        assert forall|k: int| 0 <= k < e - p implies t[k] != c by {
            assert(t[k] == cs@[p + k]);
        }
        if e < cs.len() {
            assert(t[e - p] == cs@[e as int]);
        }
        lemma_first_of_at(t, c, e - p);
    }
    e
}

/// The line spanning `[p, e)`, without a trailing carriage return.
fn get_line(cs: &Vec<char>, p: usize, e: usize) -> (l: Vec<char>)
    requires
        p <= e <= cs.len(),
        e - p == first_of(cs@.skip(p as int), '\n'),
    ensures
        l@ == line_at(cs@.skip(p as int)),
{
    let mut end = e;
    if end > p && cs[end - 1] == '\r' {
        end = end - 1;
    }
    let l = crate::text::copy_range(cs, p, end);
    proof {
        let t = cs@.skip(p as int);
        assert(t.take(first_nl(t) as int) =~= cs@.subrange(p as int, e as int));
        let raw = cs@.subrange(p as int, e as int);
        if e > p && cs@[e as int - 1] == '\r' {
            assert(raw.last() == '\r');
            assert(raw.drop_last() =~= cs@.subrange(p as int, e as int - 1));
        } else {
            if raw.len() > 0 {
                assert(raw.last() == cs@[e as int - 1]);
            }
        }
        assert(l@ =~= line_at(t));
    }
    l
}

/// Whether an optional character vector is exactly an optional sequence.
pub open spec fn opt_chars_matches(r: Option<Vec<char>>, v: Option<Seq<char>>) -> bool {
    match (r, v) {
        (Some(a), Some(b)) => a@ == b,
        (None, None) => true,
        _ => false,
    }
}

/// Whether the text contains a colon immediately followed by a space.
fn scan_colon_space(v: &Vec<char>) -> (r: bool)
    ensures
        r == has_colon_space(v@),
{
    if v.len() < 2 {
        proof {
            assert(!has_colon_space(v@));
        }
        return false;
    }
    let mut k: usize = 0;
    while k < v.len() - 1
        invariant
            v.len() >= 2,
            k <= v.len() - 1,
            forall|j: int| 0 <= j < k ==> !((#[trigger] v@[j]) == ':' && v@[j + 1] == ' '),
        decreases v.len() - k,
    {
        if v[k] == ':' && v[k + 1] == ' ' {
            return true;
        }
        k = k + 1;
    }
    proof {
        assert(!has_colon_space(v@));
    }
    false
}

/// The value of a trimmed scalar, as characters.
fn scalar_value_exec(v: &Vec<char>) -> (r: Option<Vec<char>>)
    ensures
        opt_chars_matches(r, scalar_value(v@)),
{
    if v.len() >= 1 && v[0] == '"' {
        if v.len() >= 2 && v[v.len() - 1] == '"' {
            Some(crate::text::copy_range(v, 1, v.len() - 1))
        } else {
            None
        }
    } else if v.len() >= 1 && v[0] == '[' {
        None
    } else if scan_colon_space(v) {
        None
    } else {
        let mut r: Vec<char> = Vec::new();
        let mut i: usize = 0;
        while i < v.len()
            invariant
                i <= v.len(),
                r@ == v@.take(i as int),
            decreases v.len() - i,
        {
            r.push(v[i]);
            proof {
                assert(r@ =~= v@.take(i + 1 as int));
            }
            i = i + 1;
        }
        proof {
            assert(r@ =~= v@);
        }
        Some(r)
    }
}

proof fn lemma_items_values_cons(x: Seq<char>, q: Seq<Seq<char>>)
    ensures
        items_values(seq![x] + q) == (match item_value(trimmed(x)) {
            None => None,
            Some(w) => match items_values(q) {
                None => None,
                Some(vs) => Some(seq![w] + vs),
            },
        }),
    decreases q.len(),
{
    if q.len() == 0 {
        assert(seq![x] + q =~= seq![x]);
        assert(seq![x].drop_last() =~= Seq::<Seq<char>>::empty());
        assert(seq![x].last() == x);
        assert(items_values(Seq::<Seq<char>>::empty()) == Some(Seq::<Seq<char>>::empty()));
        assert(items_values(q) == Some(Seq::<Seq<char>>::empty()));
        match item_value(trimmed(x)) {
            None => {
                assert(items_values(seq![x] + q) is None);
            },
            Some(w) => {
                assert(items_values(seq![x] + q) == Some(Seq::<Seq<char>>::empty().push(w)));
                assert(Seq::<Seq<char>>::empty().push(w) =~= seq![w]);
                assert(seq![w] + Seq::<Seq<char>>::empty() =~= seq![w]);
            },
        }
    } else {
        let whole = seq![x] + q;
        assert(whole.drop_last() =~= seq![x] + q.drop_last());
        assert(whole.last() == q.last());
        lemma_items_values_cons(x, q.drop_last());
        match item_value(trimmed(x)) {
            None => {},
            Some(w) => {
                match items_values(q.drop_last()) {
                    None => {},
                    Some(vs) => {
                        match item_value(trimmed(q.last())) {
                            None => {},
                            Some(wl) => {
                                assert((seq![w] + vs).push(wl) =~= seq![w] + vs.push(wl));
                            },
                        }
                    },
                }
            },
        }
    }
}

/// Parse the comma-separated items of a flow list from `pos` on,
/// appending each item's value.
fn parse_items(inner: &Vec<char>, pos: usize, ts: &mut Vec<String>) -> (ok: bool)
    requires
        pos <= inner.len(),
    ensures
        ok == (items_values(split_commas(inner@.skip(pos as int))) is Some),
        ok ==> (items_values(split_commas(inner@.skip(pos as int))) matches Some(vs)
            && final(ts).deep_view() == old(ts).deep_view() + vs),
    decreases inner.len() - pos,
{
    let ghost u = inner@.skip(pos as int);
    let c = find_char_from(inner, pos, ',');
    proof {
        assert(first_comma(u) == c - pos);
        if c < inner.len() {
            assert(split_commas(u) == seq![u.take(c - pos as int)] + split_commas(
                u.skip(c - pos + 1 as int),
            ));
        } else {
            assert(split_commas(u) == seq![u]);
            assert(u.take(c - pos as int) =~= u);
        }
        assert(u.take(c - pos as int) =~= inner@.subrange(pos as int, c as int));
    }
    let ghost part = inner@.subrange(pos as int, c as int);
    let (x, y) = crate::text::trim_range(inner, pos, c);
    proof {
        assert(trimmed(part) == inner@.subrange(x as int, y as int));
    }
    let w_opt: Option<Vec<char>> = if x == y {
        None
    } else if inner[x] == '"' {
        if y - x >= 2 && inner[y - 1] == '"' {
            Some(crate::text::copy_range(inner, x + 1, y - 1))
        } else {
            None
        }
    } else {
        Some(crate::text::copy_range(inner, x, y))
    };
    proof {
        let tp = trimmed(part);
        if x < y {
            assert(tp[0] == inner@[x as int]);
            assert(tp.last() == inner@[y as int - 1]);
            if inner@[x as int] == '"' && y - x >= 2 && inner@[y as int - 1] == '"' {
                assert(tp.subrange(1, tp.len() - 1) =~= inner@.subrange(x + 1 as int, y - 1 as int));
            }
        }
        assert(opt_chars_matches(w_opt, item_value(trimmed(part))));
    }
    match w_opt {
        None => {
            proof {
                if c < inner.len() {
                    lemma_items_values_cons(part, split_commas(u.skip(c - pos + 1 as int)));
                } else {
                    lemma_items_values_cons(part, Seq::<Seq<char>>::empty());
                    assert(seq![part] + Seq::<Seq<char>>::empty() =~= seq![part]);
                    assert(split_commas(u) == seq![part]);
                }
            }
            false
        },
        Some(w) => {
            let sw = crate::text::string_from_chars(&w);
            let ghost prev = ts.deep_view();
            ts.push(sw);
            proof {
                assert(ts.deep_view() =~= prev.push(w@));
            }
            if c < inner.len() {
                let ok = parse_items(inner, c + 1, ts);
                proof {
                    assert(u.skip(c - pos + 1 as int) =~= inner@.skip(c + 1 as int));
                    lemma_items_values_cons(part, split_commas(inner@.skip(c + 1 as int)));
                    if ok {
                        match items_values(split_commas(inner@.skip(c + 1 as int))) {
                            Some(vs) => {
                                assert((old(ts).deep_view() + (seq![w@] + vs)) =~= (prev.push(w@)
                                    + vs));
                            },
                            None => {},
                        }
                    }
                }
                ok
            } else {
                proof {
                    lemma_items_values_cons(part, Seq::<Seq<char>>::empty());
                    assert(seq![part] + Seq::<Seq<char>>::empty() =~= seq![part]);
                    assert(split_commas(u) == seq![part]);
                    assert(items_values(Seq::<Seq<char>>::empty()) == Some(
                        Seq::<Seq<char>>::empty(),
                    ));
                    assert(seq![w@] + Seq::<Seq<char>>::empty() =~= seq![w@]);
                    assert(ts.deep_view() =~= old(ts).deep_view() + seq![w@]);
                }
                true
            }
        },
    }
}

/// The value of a trimmed flow list, as a vector of tag strings.
fn parse_list(v: &Vec<char>) -> (r: Option<Vec<String>>)
    ensures
        match (r, list_value(v@)) {
            (Some(ts), Some(m)) => ts.deep_view() == m,
            (None, None) => true,
            _ => false,
        },
{
    if !(v.len() >= 2 && v[0] == '[' && v[v.len() - 1] == ']') {
        proof {
            if v@.len() >= 2 {
                assert(v@.last() == v@[v@.len() - 1]);
            }
        }
        return None;
    }
    let inner = crate::text::copy_range(v, 1, v.len() - 1);
    proof {
        assert(v@.last() == v@[v@.len() - 1]);
        assert(inner@ == v@.subrange(1, v@.len() - 1));
    }
    let (a, b) = crate::text::trim_range(&inner, 0, inner.len());
    proof {
        assert(inner@.subrange(0, inner@.len() as int) =~= inner@);
    }
    if a == b {
        let ts: Vec<String> = Vec::new();
        proof {
            assert(trimmed(inner@).len() == 0);
            assert(ts.deep_view() =~= Seq::<Seq<char>>::empty());
        }
        Some(ts)
    } else {
        proof {
            assert(trimmed(inner@).len() > 0);
        }
        let mut ts: Vec<String> = Vec::new();
        let ghost empty_dv = ts.deep_view();
        let ok = parse_items(&inner, 0, &mut ts);
        proof {
            assert(inner@.skip(0) =~= inner@);
            assert(empty_dv =~= Seq::<Seq<char>>::empty());
        }
        if ok {
            proof {
                match items_values(split_commas(inner@)) {
                    Some(vs) => {
                        assert(ts.deep_view() =~= vs);
                    },
                    None => {},
                }
            }
            Some(ts)
        } else {
            None
        }
    }
}

/// Whether the line holds nothing but whitespace.
fn is_blank_line(l: &Vec<char>) -> (r: bool)
    ensures
        r == all_space(l@),
{
    let mut i: usize = 0;
    while i < l.len()
        invariant
            i <= l.len(),
            forall|k: int| 0 <= k < i ==> is_space_char(#[trigger] l@[k]),
        decreases l.len() - i,
    {
        if !crate::text::is_space(l[i]) {
            return false;
        }
        i = i + 1;
    }
    true
}

/// Read one key-value line into the decoded preamble; reports whether
/// the line was well-formed.
fn apply_line_exec(f: &mut Frontmatter, line: &Vec<char>, Ghost(m): Ghost<FrontmatterModel>) -> (ok:
    bool)
    requires
        fm_matches(*old(f), m),
    ensures
        ok == (apply_line(m, line@) is Some),
        ok ==> (apply_line(m, line@) matches Some(m2) && fm_matches(*final(f), m2)),
{
    if is_blank_line(line) {
        return true;
    }
    let ci = find_char_from(line, 0, ':');
    proof {
        assert(line@.skip(0) =~= line@);
        assert(first_colon(line@) == ci);
    }
    if ci == line.len() {
        return false;
    }
    let (ka, kb) = crate::text::trim_range(line, 0, ci);
    proof {
        assert(line@.subrange(0, ci as int) =~= line@.take(ci as int));
    }
    if ka == kb {
        proof {
            assert(trimmed(line@.take(ci as int)).len() == 0);
        }
        return false;
    }
    if ci + 1 < line.len() {
        let c0 = line[ci + 1];
        proof {
            assert(line@.skip(ci + 1 as int)[0] == line@[ci as int + 1]);
        }
        if !(c0 == ' ' || c0 == '\t') {
            return false;
        }
    }
    let (va, vb) = crate::text::trim_range(line, ci + 1, line.len());
    proof {
        assert(line@.subrange(ci + 1 as int, line@.len() as int) =~= line@.skip(ci + 1 as int));
    }
    let key = crate::text::copy_range(line, ka, kb);
    let v = crate::text::copy_range(line, va, vb);
    proof {
        assert(key@ == trimmed(line@.take(ci as int)));
        assert(v@ == trimmed(line@.skip(ci + 1 as int)));
        assert(key@.len() > 0);
    }
    let kw_title = vec!['t', 'i', 't', 'l', 'e'];
    let kw_tags = vec!['t', 'a', 'g', 's'];
    let kw_canonical = vec![
        'c',
        'a',
        'n',
        'o',
        'n',
        'i',
        'c',
        'a',
        'l',
        '_',
        'u',
        'r',
        'l',
    ];
    let kw_published = vec!['p', 'u', 'b', 'l', 'i', 's', 'h', 'e', 'd'];
    let kw_cover = vec!['c', 'o', 'v', 'e', 'r', '_', 'i', 'm', 'a', 'g', 'e'];
    let kw_description = vec!['d', 'e', 's', 'c', 'r', 'i', 'p', 't', 'i', 'o', 'n'];
    proof {
        assert(kw_title@ =~= key_title());
        assert(kw_tags@ =~= key_tags());
        assert(kw_canonical@ =~= key_canonical_url());
        assert(kw_published@ =~= key_published());
        assert(kw_cover@ =~= key_cover_image());
        assert(kw_description@ =~= key_description());
    }
    if chars_eq(&key, &kw_title) {
        if v.len() == 0 {
            f.title = None;
            true
        } else {
            match scalar_value_exec(&v) {
                None => false,
                Some(t) => {
                    f.title = Some(crate::text::string_from_chars(&t));
                    true
                },
            }
        }
    } else if chars_eq(&key, &kw_tags) {
        if v.len() == 0 {
            false
        } else {
            match parse_list(&v) {
                None => false,
                Some(ts) => {
                    f.tags = ts;
                    true
                },
            }
        }
    } else if chars_eq(&key, &kw_canonical) {
        if v.len() == 0 {
            f.canonical_url = None;
            true
        } else {
            match scalar_value_exec(&v) {
                None => false,
                Some(t) => {
                    f.canonical_url = Some(crate::text::string_from_chars(&t));
                    true
                },
            }
        }
    } else if chars_eq(&key, &kw_published) {
        let kw_true = vec!['t', 'r', 'u', 'e'];
        let kw_false = vec!['f', 'a', 'l', 's', 'e'];
        proof {
            assert(kw_true@ =~= chars_true());
            assert(kw_false@ =~= chars_false());
        }
        if chars_eq(&v, &kw_true) {
            f.published = true;
            true
        } else if chars_eq(&v, &kw_false) {
            f.published = false;
            true
        } else {
            false
        }
    } else if chars_eq(&key, &kw_cover) {
        if v.len() == 0 {
            f.cover_image = None;
            true
        } else {
            match scalar_value_exec(&v) {
                None => false,
                Some(t) => {
                    f.cover_image = Some(crate::text::string_from_chars(&t));
                    true
                },
            }
        }
    } else if chars_eq(&key, &kw_description) {
        if v.len() == 0 {
            f.description = None;
            true
        } else {
            match scalar_value_exec(&v) {
                None => false,
                Some(t) => {
                    f.description = Some(crate::text::string_from_chars(&t));
                    true
                },
            }
        }
    } else {
        true
    }
}

proof fn lemma_decode_snoc(p: Seq<Seq<char>>, l: Seq<char>)
    ensures
        decode_lines(p.push(l)) == (match decode_lines(p) {
            None => None,
            Some(m) => apply_line(m, l),
        }),
{
    assert(p.push(l).drop_last() =~= p);
    assert(p.push(l).last() == l);
}

proof fn lemma_decode_none_extend(p: Seq<Seq<char>>, q: Seq<Seq<char>>)
    requires
        decode_lines(p) is None,
    ensures
        decode_lines(p + q) is None,
    decreases q.len(),
{
    if q.len() == 0 {
        assert(p + q =~= p);
    } else {
        assert((p + q).drop_last() =~= p + q.drop_last());
        lemma_decode_none_extend(p, q.drop_last());
    }
}

/// The title a single line contributes, as characters.
fn h1_candidate_exec(l: &Vec<char>) -> (r: Option<Vec<char>>)
    ensures
        opt_chars_matches(r, h1_candidate(l@)),
{
    let (a, b) = crate::text::trim_range(l, 0, l.len());
    proof {
        assert(l@.subrange(0, l@.len() as int) =~= l@);
    }
    let ghost t = trimmed(l@);
    if b - a >= 2 && l[a] == '#' && l[a + 1] == ' ' {
        proof {
            assert(t[0] == l@[a as int]);
            assert(t[1] == l@[a as int + 1]);
        }
        let mut x = a;
        proof {
            assert(l@.subrange(a as int, b as int) == t);
        }
        while x < b - 1 && l[x] == '#' && l[x + 1] == ' '
            invariant
                a <= x <= b <= l.len(),
                b - a >= 2,
                strip_h1_marks(t) == strip_h1_marks(l@.subrange(x as int, b as int)),
            decreases b - x,
        {
            proof {
                let u = l@.subrange(x as int, b as int);
                assert(u[0] == l@[x as int]);
                assert(u[1] == l@[x as int + 1]);
                assert(u.skip(2) =~= l@.subrange(x as int + 2, b as int));
            }
            x = x + 2;
        }
        proof {
            let u = l@.subrange(x as int, b as int);
            if u.len() >= 2 {
                assert(u[0] == l@[x as int]);
                assert(u[1] == l@[x as int + 1]);
            }
            assert(strip_h1_marks(u) == u);
        }
        let (c, d) = crate::text::trim_range(l, x, b);
        proof {
            assert(trimmed(strip_h1_marks(t)) == l@.subrange(c as int, d as int));
        }
        if d > c {
            Some(crate::text::copy_range(l, c, d))
        } else {
            None
        }
    } else {
        proof {
            if t.len() >= 2 {
                assert(t[0] == l@[a as int]);
                assert(t[1] == l@[a as int + 1]);
            }
        }
        None
    }
}

/// The first heading title of the body at or after position `p`.
fn first_h1_from(body: &Vec<char>, p: usize) -> (r: Option<Vec<char>>)
    requires
        p <= body.len(),
    ensures
        opt_chars_matches(r, first_h1(body@.skip(p as int))),
    decreases body.len() - p,
{
    let ghost t = body@.skip(p as int);
    let e = find_char_from(body, p, '\n');
    let line = get_line(body, p, e);
    match h1_candidate_exec(&line) {
        Some(x) => Some(x),
        None => {
            if e < body.len() {
                proof {
                    assert(rest_after_line(t) =~= body@.skip(e + 1 as int));
                }
                first_h1_from(body, e + 1)
            } else {
                None
            }
        },
    }
}

/// Collect the key-value lines up to the closing fence, reporting where
/// the body starts; without a closing fence there is no preamble.
fn collect_matter(cs: &Vec<char>, p: usize, lines: &mut Vec<Vec<char>>) -> (r: Option<usize>)
    requires
        p <= cs.len(),
    ensures
        r matches Some(b) ==> (find_close(cs@.skip(p as int)) matches Some(pr) && p <= b
            <= cs.len() && final(lines).deep_view() == old(lines).deep_view() + pr.0 && pr.1
            == cs@.skip(b as int)),
        r is None ==> find_close(cs@.skip(p as int)) is None,
    decreases cs.len() - p,
{
    let ghost t = cs@.skip(p as int);
    let e = find_char_from(cs, p, '\n');
    let line = get_line(cs, p, e);
    let delim = vec!['-', '-', '-'];
    proof {
        assert(delim@ =~= seq!['-', '-', '-']);
    }
    if chars_eq(&line, &delim) {
        proof {
            assert(is_delim(line_at(t)));
            assert(final(lines).deep_view() =~= old(lines).deep_view() + Seq::<Seq<char>>::empty());
        }
        if e < cs.len() {
            proof {
                assert(rest_after_line(t) =~= cs@.skip(e + 1 as int));
            }
            Some(e + 1)
        } else {
            proof {
                assert(!line_has_nl(t));
                assert(rest_after_line(t) =~= cs@.skip(cs@.len() as int));
            }
            Some(cs.len())
        }
    } else if e == cs.len() {
        proof {
            assert(!line_has_nl(t));
        }
        None
    } else {
        let ghost prev = lines.deep_view();
        lines.push(line);
        proof {
            assert(lines.deep_view() =~~= prev.push(line_at(t)));
            assert(rest_after_line(t) =~= cs@.skip(e + 1 as int));
        }
        let rec = collect_matter(cs, e + 1, lines);
        match rec {
            None => None,
            Some(b) => {
                proof {
                    match find_close(cs@.skip(e + 1 as int)) {
                        Some(p2) => {
                            assert((prev.push(line_at(t)) + p2.0) =~= prev + (seq![line_at(t)]
                                + p2.0));
                        },
                        None => {},
                    }
                }
                Some(b)
            },
        }
    }
}

/// Parse a document with a preamble block into an article: split at the
/// fences, decode the key-value region, and resolve the canonical title
/// against the body's first heading.
pub fn parse_markdown(content: &str) -> (r: Result<Article, PipelineError>)
    ensures
        parse_post(content@, r),
{
    let cs = chars_of(content);
    let ghost s = content@;
    proof {
        assert(cs@.skip(0) =~= s);
    }
    let e0 = find_char_from(&cs, 0, '\n');
    let line0 = get_line(&cs, 0, e0);
    let delim = vec!['-', '-', '-'];
    proof {
        assert(delim@ =~= seq!['-', '-', '-']);
        assert(line0@ == line_at(s));
        assert(first_nl(s) == e0);
    }
    if !chars_eq(&line0, &delim) || e0 == cs.len() {
        return Err(PipelineError::MissingPreamble);
    }
    let mut lines: Vec<Vec<char>> = Vec::new();
    let ghost empty_lines = lines.deep_view();
    let close = collect_matter(&cs, e0 + 1, &mut lines);
    proof {
        assert(empty_lines =~= Seq::<Seq<char>>::empty());
        assert(rest_after_line(s) =~= cs@.skip(e0 + 1 as int));
    }
    let b = match close {
        None => {
            return Err(PipelineError::MissingPreamble);
        },
        Some(b) => b,
    };
    let ghost matter = find_close(rest_after_line(s))->Some_0.0;
    let ghost body = find_close(rest_after_line(s))->Some_0.1;
    proof {
        assert(lines.deep_view() =~= matter);
        assert(body == cs@.skip(b as int));
    }
    // a region of nothing but blank lines decodes to no preamble at all
    let mut any_content = false;
    let mut i: usize = 0;
    while i < lines.len()
        invariant
            i <= lines.len(),
            lines.deep_view() == matter,
            any_content == !(forall|k: int|
                0 <= k < i ==> all_space(#[trigger] lines.deep_view()[k])),
        decreases lines.len() - i,
    {
        let blank = is_blank_line(&lines[i]);
        proof {
            assert(lines.deep_view()[i as int] =~= lines@[i as int]@);
        }
        if !blank {
            any_content = true;
        }
        i = i + 1;
    }
    if !any_content {
        proof {
            assert(all_blank_lines(matter));
        }
        return Err(PipelineError::MissingPreamble);
    }
    proof {
        assert(!all_blank_lines(matter));
    }
    // decode the key-value region line by line
    let mut fm = Frontmatter {
        title: None,
        tags: Vec::new(),
        canonical_url: None,
        published: true,
        cover_image: None,
        description: None,
    };
    let ghost mut mk = default_model();
    proof {
        assert(fm.tags.deep_view() =~= Seq::<Seq<char>>::empty());
        assert(fm_matches(fm, mk));
        assert(matter.take(0) =~= Seq::<Seq<char>>::empty());
    }
    let mut k: usize = 0;
    while k < lines.len()
        invariant
            k <= lines.len(),
            lines.deep_view() == matter,
            decode_lines(matter.take(k as int)) == Some(mk),
            fm_matches(fm, mk),
            s == content@,
            is_delim(line_at(s)),
            line_has_nl(s),
            find_close(rest_after_line(s)) matches Some(pr) && pr.0 == matter,
            !all_blank_lines(matter),
        decreases lines.len() - k,
    {
        let ok = apply_line_exec(&mut fm, &lines[k], Ghost(mk));
        proof {
            assert(lines.deep_view()[k as int] =~= lines@[k as int]@);
            lemma_decode_snoc(matter.take(k as int), matter[k as int]);
            assert(matter.take(k as int).push(matter[k as int]) =~= matter.take(k as int + 1));
        }
        if !ok {
            let detail = crate::text::string_from_chars(&lines[k]);
            proof {
                assert(decode_lines(matter.take(k as int + 1)) is None);
                lemma_decode_none_extend(matter.take(k as int + 1), matter.skip(k as int + 1));
                assert(matter.take(k as int + 1) + matter.skip(k as int + 1) =~= matter);
                assert(decode_lines(matter) is None);
            }
            return Err(PipelineError::InvalidPreambleSyntax { detail });
        }
        proof {
            mk = apply_line(mk, matter[k as int])->Some_0;
        }
        k = k + 1;
    }
    proof {
        assert(matter.take(lines.len() as int) =~= matter);
        assert(decode_lines(matter) == Some(mk));
    }
    // the body and its first heading
    let body_chars = crate::text::copy_range(&cs, b, cs.len());
    let content_string = crate::text::string_from_chars(&body_chars);
    proof {
        assert(body_chars@ == body);
    }
    let h_opt = first_h1_from(&body_chars, 0);
    proof {
        assert(body_chars@.skip(0) =~= body);
    }
    // the effective preamble title: blank counts as absent
    let Frontmatter { title, tags, canonical_url, published, cover_image, description } = fm;
    let eff: Option<String> = match title {
        None => None,
        Some(t) => {
            let tc = chars_of(t.as_str());
            let (ta, tb) = crate::text::trim_range(&tc, 0, tc.len());
            proof {
                assert(tc@.subrange(0, tc@.len() as int) =~= tc@);
            }
            if ta == tb {
                proof {
                    assert(trimmed(t@).len() == 0);
                }
                None
            } else {
                Some(t)
            }
        },
    };
    proof {
        assert(opt_matches(eff, effective_title(mk)));
    }
    // title resolution
    match (eff, h_opt) {
        (Some(t), Some(hv)) => {
            let tc = chars_of(t.as_str());
            let (ta, tb) = crate::text::trim_range(&tc, 0, tc.len());
            proof {
                assert(tc@.subrange(0, tc@.len() as int) =~= tc@);
            }
            let ttrim = crate::text::copy_range(&tc, ta, tb);
            if chars_eq(&ttrim, &hv) {
                let article = Article {
                    title: t,
                    content: content_string,
                    tags,
                    canonical_url,
                    published,
                    cover_image,
                    description,
                };
                Ok(article)
            } else {
                Err(
                    PipelineError::TitleConflict {
                        preamble_title: t,
                        body_title: crate::text::string_from_chars(&hv),
                    },
                )
            }
        },
        (Some(t), None) => {
            let article = Article {
                title: t,
                content: content_string,
                tags,
                canonical_url,
                published,
                cover_image,
                description,
            };
            Ok(article)
        },
        (None, Some(hv)) => {
            let article = Article {
                title: crate::text::string_from_chars(&hv),
                content: content_string,
                tags,
                canonical_url,
                published,
                cover_image,
                description,
            };
            Ok(article)
        },
        (None, None) => Err(PipelineError::MissingTitle),
    }
}

} // verus!
