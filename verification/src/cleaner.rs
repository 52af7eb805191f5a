use vstd::prelude::*;

use crate::text::chars_of;
use crate::text::string_from_chars;

verus! {

/// Code points stripped outright: pictographic and symbol ranges
/// (emoticons, pictographs, transport symbols, regional indicators,
/// dingbats, variation selectors, combining symbol marks, and a few
/// miscellaneous technical ranges).
pub open spec fn is_removed_symbol(c: char) -> bool {
    let u = c as u32;
    ||| (0x1F600 <= u && u <= 0x1F64F)
    ||| (0x1F300 <= u && u <= 0x1F5FF)
    ||| (0x1F680 <= u && u <= 0x1F6FF)
    ||| (0x1F1E0 <= u && u <= 0x1F1FF)
    ||| (0x2600 <= u && u <= 0x26FF)
    ||| (0x2700 <= u && u <= 0x27BF)
    ||| (0xFE00 <= u && u <= 0xFE0F)
    ||| (0x1F900 <= u && u <= 0x1F9FF)
    ||| (0x1F018 <= u && u <= 0x1F270)
    ||| (0x238C <= u && u <= 0x2454)
    ||| (0x20D0 <= u && u <= 0x20FF)
}

/// Invisible separators that are dropped: non-breaking space, zero-width
/// space, zero-width non-joiner, zero-width joiner, and the BOM.
pub open spec fn is_invisible(c: char) -> bool {
    c == '\u{00A0}' || c == '\u{200B}' || c == '\u{200C}' || c == '\u{200D}' || c == '\u{FEFF}'
}

/// What a single character becomes under cleaning. Symbols and invisible
/// separators vanish, typographic punctuation is replaced by its ASCII
/// equivalent, and everything else is kept as it is.
pub open spec fn clean_char(c: char) -> Seq<char> {
    if is_removed_symbol(c) {
        Seq::<char>::empty()
    } else if c == '\u{2014}' {
        seq!['-', '-']
    } else if c == '\u{2013}' {
        seq!['-']
    } else if c == '\u{201C}' || c == '\u{201D}' {
        seq!['"']
    } else if c == '\u{2018}' || c == '\u{2019}' {
        seq!['\'']
    } else if c == '\u{2026}' {
        seq!['.', '.', '.']
    } else if is_invisible(c) {
        Seq::<char>::empty()
    } else {
        seq![c]
    }
}

/// Cleaning a whole text: each character is cleaned independently and the
/// results are concatenated in order.
pub open spec fn clean_chars(s: Seq<char>) -> Seq<char>
    decreases s.len(),
{
    if s.len() == 0 {
        Seq::<char>::empty()
    } else {
        clean_char(s[0]) + clean_chars(s.drop_first())
    }
}

/// A character sequence is settled when cleaning keeps every one of its
/// characters as it is.
pub open spec fn all_settled(t: Seq<char>) -> bool {
    forall|j: int| 0 <= j < t.len() ==> clean_char(t[j]) == seq![t[j]]
}

proof fn lemma_clean_of_settled(t: Seq<char>)
    requires
        all_settled(t),
    ensures
        clean_chars(t) == t,
    decreases t.len(),
{
    if t.len() == 0 {
    } else {
        assert(clean_char(t[0]) == seq![t[0]]);
        lemma_clean_of_settled(t.drop_first());
        assert(seq![t[0]] + t.drop_first() =~= t);
    }
}

proof fn lemma_clean_char_settled(c: char)
    ensures
        all_settled(clean_char(c)),
{
    let t = clean_char(c);
    assert forall|j: int| 0 <= j < t.len() implies clean_char(t[j]) == seq![t[j]] by {
        let d = t[j];
        assert(d == c || d == '-' || d == '"' || d == '\'' || d == '.');
        assert(clean_char(d) =~= seq![d]);
    }
}

proof fn lemma_clean_chars_settled(s: Seq<char>)
    ensures
        all_settled(clean_chars(s)),
    decreases s.len(),
{
    if s.len() == 0 {
    } else {
        lemma_clean_char_settled(s[0]);
        lemma_clean_chars_settled(s.drop_first());
        let a = clean_char(s[0]);
        let b = clean_chars(s.drop_first());
        assert forall|j: int| 0 <= j < (a + b).len() implies clean_char((a + b)[j]) == seq![
            (a + b)[j],
        ] by {
            if j < a.len() {
                assert((a + b)[j] == a[j]);
            } else {
                assert((a + b)[j] == b[j - a.len()]);
            }
        }
    }
}

/// Cleaning is idempotent: cleaning already-cleaned text changes nothing,
/// because no replacement output is itself removable or replaceable.
pub proof fn lemma_clean_idempotent(s: Seq<char>)
    ensures
        clean_chars(clean_chars(s)) == clean_chars(s),
{
    lemma_clean_chars_settled(s);
    lemma_clean_of_settled(clean_chars(s));
}

/// Text of plain ASCII characters is left unchanged by cleaning: every
/// removed or replaced character lies outside the ASCII range.
pub proof fn lemma_clean_plain_ascii(s: Seq<char>)
    requires
        forall|i: int| 0 <= i < s.len() ==> (s[i] as u32) < 128,
    ensures
        clean_chars(s) == s,
{
    assert forall|j: int| 0 <= j < s.len() implies clean_char(s[j]) == seq![s[j]] by {
        assert(clean_char(s[j]) =~= seq![s[j]]);
    }
    lemma_clean_of_settled(s);
}

/// What one character becomes under typography normalization alone.
pub open spec fn typo_char(c: char) -> Seq<char> {
    if c == '\u{2014}' {
        seq!['-', '-']
    } else if c == '\u{2013}' {
        seq!['-']
    } else if c == '\u{201C}' || c == '\u{201D}' {
        seq!['"']
    } else if c == '\u{2018}' || c == '\u{2019}' {
        seq!['\'']
    } else if c == '\u{2026}' {
        seq!['.', '.', '.']
    } else {
        seq![c]
    }
}

/// A whole text under symbol removal alone.
pub open spec fn sym_chars(s: Seq<char>) -> Seq<char>
    decreases s.len(),
{
    if s.len() == 0 {
        Seq::<char>::empty()
    } else if is_removed_symbol(s[0]) {
        sym_chars(s.drop_first())
    } else {
        seq![s[0]] + sym_chars(s.drop_first())
    }
}

/// A whole text under typography normalization alone.
pub open spec fn typo_chars(s: Seq<char>) -> Seq<char>
    decreases s.len(),
{
    if s.len() == 0 {
        Seq::<char>::empty()
    } else {
        typo_char(s[0]) + typo_chars(s.drop_first())
    }
}

/// A whole text under invisible-separator removal alone.
pub open spec fn invis_chars(s: Seq<char>) -> Seq<char>
    decreases s.len(),
{
    if s.len() == 0 {
        Seq::<char>::empty()
    } else if is_invisible(s[0]) {
        invis_chars(s.drop_first())
    } else {
        seq![s[0]] + invis_chars(s.drop_first())
    }
}

proof fn lemma_typo_chars_concat(a: Seq<char>, b: Seq<char>)
    ensures
        typo_chars(a + b) == typo_chars(a) + typo_chars(b),
    decreases a.len(),
{
    if a.len() == 0 {
        assert(a + b =~= b);
        assert(typo_chars(a) + typo_chars(b) =~= typo_chars(b));
    } else {
        assert((a + b).drop_first() =~= a.drop_first() + b);
        lemma_typo_chars_concat(a.drop_first(), b);
        assert(typo_char(a[0]) + (typo_chars(a.drop_first()) + typo_chars(b)) =~= (typo_char(a[0])
            + typo_chars(a.drop_first())) + typo_chars(b));
    }
}

proof fn lemma_invis_chars_concat(a: Seq<char>, b: Seq<char>)
    ensures
        invis_chars(a + b) == invis_chars(a) + invis_chars(b),
    decreases a.len(),
{
    if a.len() == 0 {
        assert(a + b =~= b);
        assert(invis_chars(a) + invis_chars(b) =~= invis_chars(b));
    } else {
        assert((a + b).drop_first() =~= a.drop_first() + b);
        lemma_invis_chars_concat(a.drop_first(), b);
        if is_invisible(a[0]) {
        } else {
            assert(seq![a[0]] + (invis_chars(a.drop_first()) + invis_chars(b)) =~= (seq![a[0]]
                + invis_chars(a.drop_first())) + invis_chars(b));
        }
    }
}

proof fn lemma_invis_chars_kept(t: Seq<char>)
    requires
        forall|j: int| 0 <= j < t.len() ==> !is_invisible(t[j]),
    ensures
        invis_chars(t) == t,
    decreases t.len(),
{
    if t.len() > 0 {
        lemma_invis_chars_kept(t.drop_first());
        assert(seq![t[0]] + t.drop_first() =~= t);
    }
}

/// The three passes in their fixed order equal the single-pass model:
/// no replacement output is itself a symbol or an invisible separator.
proof fn lemma_clean_composed(s: Seq<char>)
    ensures
        invis_chars(typo_chars(sym_chars(s))) == clean_chars(s),
    decreases s.len(),
{
    if s.len() == 0 {
    } else {
        let c = s[0];
        let rest = s.drop_first();
        lemma_clean_composed(rest);
        if is_removed_symbol(c) {
            assert(sym_chars(s) == sym_chars(rest));
            assert(clean_chars(s) =~= clean_chars(rest));
        } else {
            assert(sym_chars(s) == seq![c] + sym_chars(rest));
            lemma_typo_chars_concat(seq![c], sym_chars(rest));
            assert(typo_chars(seq![c]) =~= typo_char(c)) by {
                assert(seq![c].len() == 1);
                assert(seq![c][0] == c);
                assert(seq![c].drop_first() =~= Seq::<char>::empty());
                assert(typo_chars(seq![c]) == typo_char(seq![c][0]) + typo_chars(
                    seq![c].drop_first(),
                ));
                assert(typo_chars(Seq::<char>::empty()) == Seq::<char>::empty());
                assert(typo_char(c) + Seq::<char>::empty() =~= typo_char(c));
            }
            lemma_invis_chars_concat(typo_char(c), typo_chars(sym_chars(rest)));
            if c == '\u{2014}' || c == '\u{2013}' || c == '\u{201C}' || c == '\u{201D}' || c
                == '\u{2018}' || c == '\u{2019}' || c == '\u{2026}' {
                assert forall|j: int| 0 <= j < typo_char(c).len() implies !is_invisible(
                    typo_char(c)[j],
                ) by {
                    assert(typo_char(c)[j] == '-' || typo_char(c)[j] == '"' || typo_char(c)[j]
                        == '\'' || typo_char(c)[j] == '.');
                }
                lemma_invis_chars_kept(typo_char(c));
                assert(invis_chars(typo_char(c)) + invis_chars(typo_chars(sym_chars(rest)))
                    =~= clean_char(c) + clean_chars(rest));
            } else {
                assert(typo_char(c) =~= seq![c]);
                assert(invis_chars(seq![c]) =~= clean_char(c)) by {
                    assert(seq![c].len() == 1);
                    assert(seq![c][0] == c);
                    assert(seq![c].drop_first() =~= Seq::<char>::empty());
                    assert(invis_chars(Seq::<char>::empty()) == Seq::<char>::empty());
                    if is_invisible(c) {
                        assert(invis_chars(seq![c]) == invis_chars(seq![c].drop_first()));
                    } else {
                        assert(invis_chars(seq![c]) == seq![seq![c][0]] + invis_chars(
                            seq![c].drop_first(),
                        ));
                        assert(seq![c] + Seq::<char>::empty() =~= seq![c]);
                    }
                }
            }
        }
    }
}

/// Strip every pictographic symbol character.
pub fn remove_emojis(text: &str) -> (r: String)
    ensures
        r@ == sym_chars(text@),
{
    let cs = chars_of(text);
    let mut out: Vec<char> = Vec::new();
    let mut i: usize = 0;
    proof {
        assert(text@.skip(0) =~= text@);
        assert(out@ + sym_chars(text@) =~= sym_chars(text@));
    }
    while i < cs.len()
        invariant
            i <= cs.len(),
            cs@ == text@,
            out@ + sym_chars(text@.skip(i as int)) == sym_chars(text@),
        decreases cs.len() - i,
    {
        let c = cs[i];
        let ghost t = text@.skip(i as int);
        let u: u32 = c as u32;
        proof {
            assert(t[0] == text@[i as int]);
            assert(t.drop_first() =~= text@.skip(i as int + 1));
        }
        if (0x1F600 <= u && u <= 0x1F64F) || (0x1F300 <= u && u <= 0x1F5FF) || (0x1F680 <= u && u
            <= 0x1F6FF) || (0x1F1E0 <= u && u <= 0x1F1FF) || (0x2600 <= u && u <= 0x26FF) || (0x2700
            <= u && u <= 0x27BF) || (0xFE00 <= u && u <= 0xFE0F) || (0x1F900 <= u && u <= 0x1F9FF)
            || (0x1F018 <= u && u <= 0x1F270) || (0x238C <= u && u <= 0x2454) || (0x20D0 <= u && u
            <= 0x20FF) {
            // pictographic symbol: dropped
        } else {
            out.push(c);
            proof {
                assert(out@ + sym_chars(text@.skip(i as int + 1)) =~= (out@.drop_last() + (seq![c]
                    + sym_chars(text@.skip(i as int + 1)))));
            }
        }
        i = i + 1;
    }
    proof {
        assert(text@.skip(cs.len() as int) =~= Seq::<char>::empty());
        assert(out@ + Seq::<char>::empty() =~= out@);
    }
    string_from_chars(&out)
}

/// Replace typographic punctuation with its ASCII equivalent.
pub fn replace_typography(text: &str) -> (r: String)
    ensures
        r@ == typo_chars(text@),
{
    let cs = chars_of(text);
    let mut out: Vec<char> = Vec::new();
    let mut i: usize = 0;
    proof {
        assert(text@.skip(0) =~= text@);
        assert(out@ + typo_chars(text@) =~= typo_chars(text@));
    }
    while i < cs.len()
        invariant
            i <= cs.len(),
            cs@ == text@,
            out@ + typo_chars(text@.skip(i as int)) == typo_chars(text@),
        decreases cs.len() - i,
    {
        let c = cs[i];
        let ghost t = text@.skip(i as int);
        let ghost before = out@;
        proof {
            assert(t[0] == text@[i as int]);
            assert(t.drop_first() =~= text@.skip(i as int + 1));
        }
        if c == '\u{2014}' {
            out.push('-');
            out.push('-');
        } else if c == '\u{2013}' {
            out.push('-');
        } else if c == '\u{201C}' || c == '\u{201D}' {
            out.push('"');
        } else if c == '\u{2018}' || c == '\u{2019}' {
            out.push('\'');
        } else if c == '\u{2026}' {
            out.push('.');
            out.push('.');
            out.push('.');
        } else {
            out.push(c);
        }
        proof {
            assert(out@ =~= before + typo_char(c));
            assert(out@ + typo_chars(text@.skip(i as int + 1)) =~= before + (typo_char(c)
                + typo_chars(text@.skip(i as int + 1))));
        }
        i = i + 1;
    }
    proof {
        assert(text@.skip(cs.len() as int) =~= Seq::<char>::empty());
        assert(out@ + Seq::<char>::empty() =~= out@);
    }
    string_from_chars(&out)
}

/// Drop invisible separator characters.
pub fn clean_whitespace(text: &str) -> (r: String)
    ensures
        r@ == invis_chars(text@),
{
    let cs = chars_of(text);
    let mut out: Vec<char> = Vec::new();
    let mut i: usize = 0;
    proof {
        assert(text@.skip(0) =~= text@);
        assert(out@ + invis_chars(text@) =~= invis_chars(text@));
    }
    while i < cs.len()
        invariant
            i <= cs.len(),
            cs@ == text@,
            out@ + invis_chars(text@.skip(i as int)) == invis_chars(text@),
        decreases cs.len() - i,
    {
        let c = cs[i];
        let ghost t = text@.skip(i as int);
        proof {
            assert(t[0] == text@[i as int]);
            assert(t.drop_first() =~= text@.skip(i as int + 1));
        }
        if c == '\u{00A0}' || c == '\u{200B}' || c == '\u{200C}' || c == '\u{200D}' || c
            == '\u{FEFF}' {
            // invisible separator: dropped
        } else {
            out.push(c);
            proof {
                assert(out@ + invis_chars(text@.skip(i as int + 1)) =~= (out@.drop_last() + (seq![c]
                    + invis_chars(text@.skip(i as int + 1)))));
            }
        }
        i = i + 1;
    }
    proof {
        assert(text@.skip(cs.len() as int) =~= Seq::<char>::empty());
        assert(out@ + Seq::<char>::empty() =~= out@);
    }
    string_from_chars(&out)
}

/// Clean AI-writing artifacts from text: strip pictographic symbols,
/// then normalize typographic punctuation to ASCII, then drop invisible
/// separator characters — in that fixed order.
pub fn clean_ai_artifacts(text: &str) -> (r: String)
    ensures
        r@ == clean_chars(text@),
{
    let without_symbols = remove_emojis(text);
    let normalized = replace_typography(without_symbols.as_str());
    let r = clean_whitespace(normalized.as_str());
    proof {
        lemma_clean_composed(text@);
    }
    r
}

} // verus!
