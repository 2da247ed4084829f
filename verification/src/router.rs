//! The request router: route matching, the proxy's decisions, and the `<base>` tag
//! insertion by plain text search.
pub mod matcher;
pub mod proxy;

pub use matcher::match_route;
pub use matcher::rewrite_prefix;
pub use matcher::RouteMatch;

use vstd::prelude::*;
use vstd::utf8::decode_utf8;
use vstd::utf8::encode_utf8;
use vstd::utf8::encode_utf8_decode_utf8;
use vstd::utf8::is_char_boundary;

use crate::router::proxy::ascii_lower;
use crate::text::byte_count;
use crate::text::lemma_byte_suffix_of_prefix;
use crate::text::lemma_encode_concat;
use crate::text::lemma_find_from_some;
use crate::text::lemma_prefix_boundary;
use crate::text::starts_with;
use crate::text::byte_suffix;
use crate::text::chars_find_from;
use crate::text::chars_of;
use crate::text::chars_sub;
use crate::text::find;
use crate::text::find_from;
use crate::text::str_tail;
use crate::text::string_of;

verus! {

/// `str::to_lowercase` of `s`: its Unicode lower-case form.
pub uninterp spec fn lowercase(s: Seq<char>) -> Seq<char>;

/// Every character of `s` is ASCII.
pub open spec fn all_ascii(s: Seq<char>) -> bool {
    forall|i: int| 0 <= i < s.len() ==> (#[trigger] s[i] as u32) < 0x80
}

/// `str::to_lowercase`; on ASCII text, which it lower-cases character by character with the
/// ASCII mapping, the result has the same length and `A`..`Z` become `a`..`z`.
#[verifier::external_body]
fn to_lowercase(s: &str) -> (r: String)
    ensures
        r@ == lowercase(s@),
        all_ascii(s@) ==> r@ == s@.map_values(|c: char| ascii_lower(c)),
{
    s.to_lowercase()
}

/// The characters of `s` within its first `n` bytes of UTF-8 (what `&s[..n]` holds).
pub open spec fn byte_prefix(s: Seq<char>, n: int) -> Seq<char> {
    decode_utf8(encode_utf8(s).subrange(0, n))
}

/// The byte offset just after the `>` that closes the first `<head` tag of `lower`, if any.
pub open spec fn head_end_offset(lower: Seq<char>) -> Option<int> {
    match find(lower, "<head"@) {
        None => None,
        Some(p) => match find_from(lower, seq!['>'], p) {
            None => None,
            Some(q) => Some(encode_utf8(lower.subrange(0, q + 1)).len() as int),
        },
    }
}

/// The HTML with `tag` inserted after the first `<head ...>` tag, which is found without
/// regard to case; the HTML unchanged when there is no such tag.
pub open spec fn spec_inject_into_head(html: Seq<char>, tag: Seq<char>) -> Seq<char> {
    match head_end_offset(lowercase(html)) {
        None => html,
        Some(n) => byte_prefix(html, n) + tag + byte_suffix(html, n),
    }
}

/// `html` can be cut where the tag goes: the offset found in the lower-cased text is a
/// character boundary of `html` itself.
pub open spec fn head_offset_fits(html: Seq<char>) -> bool {
    match head_end_offset(lowercase(html)) {
        None => true,
        Some(n) => is_char_boundary(encode_utf8(html), n),
    }
}

/// The character index just after the `>` that closes the first `<head` tag of `lower`.
pub open spec fn head_end_index(lower: Seq<char>) -> Option<int> {
    match find(lower, "<head"@) {
        None => None,
        Some(p) => match find_from(lower, seq!['>'], p) {
            None => None,
            Some(q) => Some(q + 1),
        },
    }
}

/// On ASCII HTML: `tag` inserted after the first `<head ...>` tag, found in the HTML with
/// `A`..`Z` lower-cased; the HTML unchanged without one.
pub open spec fn spec_ascii_inject_into_head(html: Seq<char>, tag: Seq<char>) -> Seq<char> {
    match head_end_index(html.map_values(|c: char| ascii_lower(c))) {
        None => html,
        Some(k) => html.subrange(0, k) + tag + html.subrange(k, html.len() as int),
    }
}

/// ASCII text takes one byte per character in UTF-8.
proof fn lemma_ascii_encode_len(s: Seq<char>)
    requires
        all_ascii(s),
    ensures
        encode_utf8(s).len() == s.len(),
    decreases s.len(),
{
    if s.len() > 0 {
        assert(all_ascii(s.drop_first())) by {
            assert forall|i: int| 0 <= i < s.drop_first().len() implies (#[trigger] s.drop_first()[i]
                as u32) < 0x80 by {
                assert(s.drop_first()[i] == s[i + 1]);
            }
        }
        lemma_ascii_encode_len(s.drop_first());
        assert((s[0] as u32) < 0x80);
    }
}

/// On ASCII HTML whose lower-cased form is the ASCII one, the tag's place is a character
/// boundary, and the insertion is the one by character positions.
proof fn lemma_ascii_inject(html: Seq<char>, tag: Seq<char>)
    requires
        all_ascii(html),
        lowercase(html) == html.map_values(|c: char| ascii_lower(c)),
    ensures
        head_offset_fits(html),
        spec_inject_into_head(html, tag) == spec_ascii_inject_into_head(html, tag),
{
    let lower = lowercase(html);
    assert(all_ascii(lower)) by {
        assert forall|i: int| 0 <= i < lower.len() implies (#[trigger] lower[i] as u32) < 0x80 by {
            assert(lower[i] == ascii_lower(html[i]));
            assert((html[i] as u32) < 0x80);
        }
    }
    if let Some(p) = find(lower, "<head"@) {
        lemma_find_from_some(lower, seq!['>'], p);
        if let Some(q) = find_from(lower, seq!['>'], p) {
            let k = q + 1;
            let pre = lower.subrange(0, k);
            assert(all_ascii(pre)) by {
                assert forall|i: int| 0 <= i < pre.len() implies (#[trigger] pre[i] as u32) < 0x80 by {
                    assert(pre[i] == lower[i]);
                }
            }
            lemma_ascii_encode_len(pre);
            let a = html.subrange(0, k);
            let b = html.subrange(k, html.len() as int);
            assert(html =~= a + b);
            assert(all_ascii(a)) by {
                assert forall|i: int| 0 <= i < a.len() implies (#[trigger] a[i] as u32) < 0x80 by {
                    assert(a[i] == html[i]);
                }
            }
            lemma_ascii_encode_len(a);
            lemma_prefix_boundary(a, b);
            lemma_encode_concat(a, b);
            assert(encode_utf8(html).subrange(0, k) =~= encode_utf8(a));
            encode_utf8_decode_utf8(a);
            assert(byte_prefix(html, k) == a);
            assert(starts_with(html, a)) by {
                assert(html.subrange(0, a.len() as int) =~= a);
            }
            lemma_byte_suffix_of_prefix(html, a);
        }
    }
}

/// The byte offset just after the `>` of the first `<head` of the lower-cased HTML.
fn find_head_end(lower: &str) -> (r: Option<usize>)
    ensures
        match head_end_offset(lower@) {
            None => r is None,
            Some(n) => r == Some(n as usize) && n <= usize::MAX,
        },
{
    let l = chars_of(lower);
    let head = chars_of("<head");
    let mut gt: Vec<char> = Vec::new();
    gt.push('>');
    assert(gt@ =~= seq!['>']);
    match chars_find_from(l.as_slice(), head.as_slice(), 0) {
        None => None,
        Some(p) => match chars_find_from(l.as_slice(), gt.as_slice(), p) {
            None => None,
            Some(q) => {
                proof {
                    assert(q + gt@.len() <= l@.len()) by {
                        crate::text::lemma_find_from_some(l@, gt@, p as int);
                    }
                }
                let len = l.len();
                assert(q + 1 <= len);
                let upto = chars_sub(l.as_slice(), 0, q + 1);
                let s = string_of(upto.as_slice());
                Some(byte_count(s.as_str()))
            },
        },
    }
}

/// Inserts `tag` right after the first `<head ...>` tag of `html`, found case-insensitively
/// through the lower-cased HTML; without one, the HTML is returned unchanged.
pub fn inject_into_head(html: &str, tag: &str) -> (r: String)
    requires
        all_ascii(html@) || head_offset_fits(html@),
    ensures
        r@ == spec_inject_into_head(html@, tag@),
        all_ascii(html@) ==> r@ == spec_ascii_inject_into_head(html@, tag@),
{
    let lower = to_lowercase(html);
    proof {
        if all_ascii(html@) {
            lemma_ascii_inject(html@, tag@);
        }
    }
    match find_head_end(lower.as_str()) {
        None => String::from_str(html),
        Some(n) => {
            let (before, after) = html.split_at(n);
            proof {
                encode_utf8_decode_utf8(before@);
                encode_utf8_decode_utf8(after@);
            }
            let mut out = String::from_str(before);
            out.append(tag);
            out.append(after);
            out
        },
    }
}

/// [`inject_into_head`] where the tag's position falls on a character boundary of the
/// HTML; `None` when it does not (the lower-cased text is then laid out differently).
pub fn try_inject_into_head(html: &str, tag: &str) -> (r: Option<String>)
    ensures
        match r {
            Some(s) => head_offset_fits(html@) && s@ == spec_inject_into_head(html@, tag@),
            None => !head_offset_fits(html@),
        },
        all_ascii(html@) ==> r is Some,
{
    let lower = to_lowercase(html);
    proof {
        if all_ascii(html@) {
            lemma_ascii_inject(html@, tag@);
        }
    }
    match find_head_end(lower.as_str()) {
        None => Some(inject_into_head(html, tag)),
        Some(n) => {
            if html.is_char_boundary(n) {
                Some(inject_into_head(html, tag))
            } else {
                None
            }
        },
    }
}

} // verus!
