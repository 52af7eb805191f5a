use vstd::prelude::*;

use vstd::string::StringExecFns;

use crate::text::chars_eq;
use crate::text::chars_of;
use crate::text::copy_range;
use crate::text::string_from_chars;

verus! {

/// Whether a character may appear in an article identifier: a lower-case
/// letter or a digit.
pub open spec fn is_id_char_spec(c: char) -> bool {
    let u = c as u32;
    (0x61 <= u && u <= 0x7A) || (0x30 <= u && u <= 0x39)
}

fn is_id_char(c: char) -> (r: bool)
    ensures
        r == is_id_char_spec(c),
{
    let u: u32 = c as u32;
    (0x61 <= u && u <= 0x7A) || (0x30 <= u && u <= 0x39)
}

/// The URL with one trailing slash dropped, if it ends with one.
pub open spec fn core_of(s: Seq<char>) -> Seq<char> {
    if s.len() > 0 && s.last() == '/' {
        s.drop_last()
    } else {
        s
    }
}

pub open spec fn http_host_prefix() -> Seq<char> {
    seq!['h', 't', 't', 'p', ':', '/', '/', 'd', 'e', 'v', '.', 't', 'o', '/']
}

pub open spec fn https_host_prefix() -> Seq<char> {
    seq!['h', 't', 't', 'p', 's', ':', '/', '/', 'd', 'e', 'v', '.', 't', 'o', '/']
}

/// Whether the URL, after dropping one optional trailing slash, ends in
/// `http(s)://dev.to/<user>/<slug>-<id>`: the scheme-and-host literal
/// starts at `i`, `sl` is the slash between the two path segments, `d`
/// the dash before the identifier, and the identifier runs to the end in
/// lower-case letters and digits.
pub open spec fn devto_url_parts(s: Seq<char>, i: int, sl: int, d: int) -> bool {
    let t = core_of(s);
    &&& 0 <= i
    &&& {
        ||| (i + 14 <= t.len() && t.subrange(i, i + 14) == http_host_prefix() && i + 14 < sl)
        ||| (i + 15 <= t.len() && t.subrange(i, i + 15) == https_host_prefix() && i + 15 < sl)
    }
    &&& sl < t.len()
    &&& t[sl] == '/'
    &&& (forall|k: int|
        (if t.subrange(i, i + 14) == http_host_prefix() {
            i + 14
        } else {
            i + 15
        }) <= k < sl ==> t[k] != '/')
    &&& sl + 2 <= d
    &&& forall|k: int| sl < k < d ==> t[k] != '/'
    &&& d + 1 < t.len()
    &&& t[d] == '-'
    &&& forall|k: int| d < k < t.len() ==> is_id_char_spec(t[k])
}

/// Whether the text is a well-formed dev.to article URL.
pub open spec fn is_devto_url(s: Seq<char>) -> bool {
    exists|i: int, sl: int, d: int| devto_url_parts(s, i, sl, d)
}

pub open spec fn bad_url_message() -> Seq<char> {
    "Invalid dev.to URL format - expected https://dev.to/username/article-slug-id"@
}

/// Extract the article identifier from a dev.to article URL: the
/// lower-case run after the last dash of the final path segment.
#[verifier::rlimit(100)]
#[verifier::spinoff_prover]
pub fn parse_devto_url(url: &str) -> (r: Result<String, String>)
    ensures
        (r is Ok) == is_devto_url(url@),
        r matches Ok(id) ==> exists|i: int, sl: int, d: int|
            #[trigger] devto_url_parts(url@, i, sl, d) && id@ == core_of(url@).skip(d + 1),
        r matches Err(e) ==> e@ == bad_url_message(),
{
    let cs = chars_of(url);
    let core_end: usize = if cs.len() > 0 && cs[cs.len() - 1] == '/' {
        cs.len() - 1
    } else {
        cs.len()
    };
    let ghost t = core_of(url@);
    proof {
        assert(t =~= cs@.subrange(0, core_end as int));
        assert forall|k: int| 0 <= k < core_end implies t[k] == cs@[k] by {}
    }
    // the identifier: the run of identifier characters at the end
    let mut j: usize = core_end;
    while j > 0 && is_id_char(cs[j - 1])
        invariant
            j <= core_end <= cs.len(),
            forall|k: int| j <= k < core_end ==> is_id_char_spec(#[trigger] cs@[k]),
        decreases j,
    {
        j = j - 1;
    }
    if j == core_end {
        // the URL does not end in an identifier character
        proof {
            assert forall|i: int, sl: int, d: int| !devto_url_parts(url@, i, sl, d) by {
                if devto_url_parts(url@, i, sl, d) {
                    assert(is_id_char_spec(t[t.len() - 1]));
                }
            }
        }
        return Err(bad_url_error());
    }
    if j == 0 || cs[j - 1] != '-' {
        proof {
            assert forall|i: int, sl: int, d: int| !devto_url_parts(url@, i, sl, d) by {
                if devto_url_parts(url@, i, sl, d) {
                    if d >= j {
                        assert(is_id_char_spec(t[d]));
                    } else if d == j - 1 {
                        assert(t[d] == cs@[j - 1 as int]);
                    } else {
                        assert(is_id_char_spec(t[j - 1 as int]));
                        assert(t[j - 1 as int] == cs@[j - 1 as int]);
                    }
                }
            }
        }
        return Err(bad_url_error());
    }
    let d = j - 1;
    proof {
        assert(t[d as int] == '-');
        assert forall|i: int, sl: int, d2: int|
            devto_url_parts(url@, i, sl, d2) implies d2 == d as int by {
            if d2 > d {
                assert(is_id_char_spec(t[d2]));
            } else if d2 < d {
                assert(is_id_char_spec(t[d as int]));
            }
        }
    }
    // the slash that opens the final path segment
    let mut sl: usize = d;
    while sl > 0 && cs[sl - 1] != '/'
        invariant
            sl <= d,
            d < core_end <= cs.len(),
            forall|k: int| sl <= k < d ==> (#[trigger] cs@[k]) != '/',
        decreases sl,
    {
        sl = sl - 1;
    }
    if sl == 0 {
        proof {
            assert forall|i: int, sl2: int, d2: int| !devto_url_parts(url@, i, sl2, d2) by {
                if devto_url_parts(url@, i, sl2, d2) {
                    assert(d2 == d as int);
                    assert(t[sl2] == '/');
                    assert(cs@[sl2] != '/');
                }
            }
        }
        return Err(bad_url_error());
    }
    let slash2 = sl - 1;
    proof {
        assert(t[slash2 as int] == '/');
        assert forall|i: int, sl2: int, d2: int|
            devto_url_parts(url@, i, sl2, d2) implies sl2 == slash2 as int by {
            assert(d2 == d as int);
            if sl2 > slash2 {
                assert(cs@[sl2] != '/');
            } else if sl2 < slash2 {
                assert(t[slash2 as int] != '/');
            }
        }
    }
    if d < slash2 + 2 {
        // the final segment has nothing before the dash
        proof {
            assert forall|i: int, sl2: int, d2: int| !devto_url_parts(url@, i, sl2, d2) by {
                if devto_url_parts(url@, i, sl2, d2) {
                    assert(d2 == d as int && sl2 == slash2 as int);
                }
            }
        }
        return Err(bad_url_error());
    }
    // the slash that closes the scheme-and-host literal
    let mut q: usize = slash2;
    while q > 0 && cs[q - 1] != '/'
        invariant
            q <= slash2,
            slash2 < d < core_end <= cs.len(),
            forall|k: int| q <= k < slash2 ==> (#[trigger] cs@[k]) != '/',
        decreases q,
    {
        q = q - 1;
    }
    proof {
        assert(http_host_prefix().last() == '/');
        assert(https_host_prefix().last() == '/');
        assert forall|i: int, sl2: int, d2: int|
            devto_url_parts(url@, i, sl2, d2) implies {
            let a = (if core_of(url@).subrange(i, i + 14) == http_host_prefix() {
                i + 14
            } else {
                i + 15
            });
            a <= slash2 as int && t[a - 1] == '/'
        } by {
            assert(d2 == d as int && sl2 == slash2 as int);
            if t.subrange(i, i + 14) == http_host_prefix() {
                assert(t[i + 13] == http_host_prefix()[13]);
            } else {
                assert(t[i + 14] == https_host_prefix()[14]);
            }
        }
    }
    if q == 0 {
        proof {
            assert forall|i: int, sl2: int, d2: int| !devto_url_parts(url@, i, sl2, d2) by {
                if devto_url_parts(url@, i, sl2, d2) {
                    assert(d2 == d as int && sl2 == slash2 as int);
                    let a = (if t.subrange(i, i + 14) == http_host_prefix() {
                        i + 14
                    } else {
                        i + 15
                    });
                    assert(t[a - 1] == '/');
                    assert(cs@[a - 1] != '/');
                }
            }
        }
        return Err(bad_url_error());
    }
    let slash1 = q - 1;
    proof {
        assert(t[slash1 as int] == '/');
    }
    if slash1 + 1 >= slash2 {
        // the first path segment is empty
        proof {
            assert forall|i: int, sl2: int, d2: int| !devto_url_parts(url@, i, sl2, d2) by {
                if devto_url_parts(url@, i, sl2, d2) {
                    assert(d2 == d as int && sl2 == slash2 as int);
                    let a = (if t.subrange(i, i + 14) == http_host_prefix() {
                        i + 14
                    } else {
                        i + 15
                    });
                    assert(t[a - 1] == '/');
                    if a - 1 > slash1 {
                        assert(cs@[a - 1] != '/');
                    }
                    if a - 1 < slash1 {
                        assert(t[slash1 as int] != '/');
                    }
                    assert(a - 1 == slash1 as int);
                }
            }
        }
        return Err(bad_url_error());
    }
    let a_end = slash1 + 1;
    let http_lit = vec!['h', 't', 't', 'p', ':', '/', '/', 'd', 'e', 'v', '.', 't', 'o', '/'];
    let https_lit = vec!['h', 't', 't', 'p', 's', ':', '/', '/', 'd', 'e', 'v', '.', 't', 'o', '/'];
    proof {
        assert(http_lit@ =~= http_host_prefix());
        assert(https_lit@ =~= https_host_prefix());
    }
    let mut matched = false;
    if a_end >= 14 {
        let pre = copy_range(&cs, a_end - 14, a_end);
        if chars_eq(&pre, &http_lit) {
            matched = true;
            proof {
                assert(t.subrange(a_end - 14, a_end as int) =~= cs@.subrange(
                    a_end - 14,
                    a_end as int,
                ));
            }
        }
    }
    if !matched && a_end >= 15 {
        let pre = copy_range(&cs, a_end - 15, a_end);
        if chars_eq(&pre, &https_lit) {
            matched = true;
            proof {
                assert(t.subrange(a_end - 15, a_end as int) =~= cs@.subrange(
                    a_end - 15,
                    a_end as int,
                ));
            }
        }
    }
    if !matched {
        proof {
            assert forall|i: int, sl2: int, d2: int| !devto_url_parts(url@, i, sl2, d2) by {
                if devto_url_parts(url@, i, sl2, d2) {
                    assert(d2 == d as int && sl2 == slash2 as int);
                    let a = (if t.subrange(i, i + 14) == http_host_prefix() {
                        i + 14
                    } else {
                        i + 15
                    });
                    assert(t[a - 1] == '/');
                    if a - 1 > slash1 {
                        assert(cs@[a - 1] != '/');
                    }
                    if a - 1 < slash1 {
                        assert(t[slash1 as int] != '/');
                    }
                    assert(a == a_end as int);
                    if t.subrange(i, i + 14) == http_host_prefix() {
                        assert(t.subrange(a_end - 14, a_end as int) =~= cs@.subrange(
                            a_end - 14,
                            a_end as int,
                        ));
                    } else {
                        assert(t.subrange(a_end - 15, a_end as int) =~= cs@.subrange(
                            a_end - 15,
                            a_end as int,
                        ));
                    }
                }
            }
        }
        return Err(bad_url_error());
    }
    let id_chars = copy_range(&cs, j, core_end);
    proof {
        let i_wit: int = if a_end >= 14 && cs@.subrange(a_end - 14, a_end as int)
            == http_host_prefix() {
            a_end - 14
        } else {
            a_end - 15
        };
        assert(t.subrange(i_wit, a_end as int) =~= cs@.subrange(i_wit, a_end as int));
        assert(devto_url_parts(url@, i_wit, slash2 as int, d as int));
        assert(id_chars@ =~= t.skip(d + 1 as int));
    }
    Ok(string_from_chars(&id_chars))
}

/// The diagnostic for a URL that is not a dev.to article URL.
fn bad_url_error() -> (r: String)
    ensures
        r@ == bad_url_message(),
{
    let mut m = String::new();
    m.append("Invalid dev.to URL format - expected https://dev.to/username/article-slug-id");
    m
}

} // verus!
