//! Splitting a URL fragment at the directive marker and tokenizing the
//! directive payload into `TextDirective` records.
//!
//! The payload is a `&`-separated list of segments; each segment whose key
//! is `text=` carries a comma-separated value of the form
//! `[prefix-,]start[,end][,-suffix]`, every part percent-encoded. Unknown
//! keys and segments without a usable `start` are dropped silently.

use vstd::prelude::*;

use crate::bytes::{seq_starts_with, starts_with_bytes};
use crate::directive::{DirectiveView, TextDirective, directive_views};
use crate::percent::{AMPERSAND, COMMA, DASH, decode_spec, percent_decode};

verus! {

/// The index of the first occurrence of `b` in `s`, if any.
pub open spec fn find_byte(s: Seq<u8>, b: u8) -> Option<int>
    decreases s.len(),
{
    if s.len() == 0 {
        None
    } else if s[0] == b {
        Some(0)
    } else {
        match find_byte(s.skip(1), b) {
            Some(i) => Some(i + 1),
            None => None,
        }
    }
}

/// What `find_byte` returns: the first occurrence, or nothing when `b` does
/// not occur.
pub proof fn lemma_find_byte(s: Seq<u8>, b: u8)
    ensures
        match find_byte(s, b) {
            Some(i) => 0 <= i < s.len() && s[i] == b && forall|k: int| 0 <= k < i ==> s[k] != b,
            None => forall|k: int| 0 <= k < s.len() ==> s[k] != b,
        },
    decreases s.len(),
{
    if s.len() == 0 {
    } else if s[0] == b {
    } else {
        lemma_find_byte(s.skip(1), b);
        match find_byte(s.skip(1), b) {
            Some(i) => {
                assert(s.skip(1)[i] == s[i + 1]);
                assert forall|k: int| 0 <= k < i + 1 implies s[k] != b by {
                    if k > 0 {
                        assert(s.skip(1)[k - 1] == s[k]);
                    }
                }
            },
            None => {
                assert forall|k: int| 0 <= k < s.len() implies s[k] != b by {
                    if k > 0 {
                        assert(s.skip(1)[k - 1] == s[k]);
                    }
                }
            },
        }
    }
}

/// A witness for the first occurrence pins `find_byte` down.
pub proof fn lemma_find_byte_is(s: Seq<u8>, b: u8, j: int)
    requires
        0 <= j < s.len(),
        s[j] == b,
        forall|k: int| 0 <= k < j ==> s[k] != b,
    ensures
        find_byte(s, b) == Some(j),
    decreases s.len(),
{
    if j == 0 {
    } else {
        assert(s[0] != b);
        assert(s.skip(1)[j - 1] == s[j]);
        assert forall|k: int| 0 <= k < j - 1 implies s.skip(1)[k] != b by {
            assert(s.skip(1)[k] == s[k + 1]);
        }
        lemma_find_byte_is(s.skip(1), b, j - 1);
    }
}

/// When `b` does not occur in `s`, `find_byte` finds nothing.
pub proof fn lemma_find_byte_none(s: Seq<u8>, b: u8)
    requires
        forall|k: int| 0 <= k < s.len() ==> s[k] != b,
    ensures
        find_byte(s, b) is None,
{
    lemma_find_byte(s, b);
    if find_byte(s, b) is Some {
        let i = find_byte(s, b)->Some_0;
        assert(s[i] == b);
    }
}

/// The copy of `s[from..to]`.
pub fn subvec(s: &Vec<u8>, from: usize, to: usize) -> (r: Vec<u8>)
    requires
        from <= to <= s@.len(),
    ensures
        r@ == s@.subrange(from as int, to as int),
{
    let mut r: Vec<u8> = Vec::new();
    let mut i: usize = from;
    while i < to
        invariant
            from <= i <= to <= s@.len(),
            r@ == s@.subrange(from as int, i as int),
        decreases to - i,
    {
        r.push(s[i]);
        proof {
            assert(s@.subrange(from as int, i + 1) =~= s@.subrange(from as int, i as int)
                + seq![s@[i as int]]);
        }
        i = i + 1;
    }
    r
}

/// The first occurrence of `b` in `s` at or after `from`, as an absolute
/// index.
pub fn find_byte_from(s: &Vec<u8>, from: usize, b: u8) -> (r: Option<usize>)
    requires
        from <= s@.len(),
    ensures
        match r {
            Some(j) => from <= j && j < s@.len() && find_byte(s@.skip(from as int), b) == Some(
                j - from,
            ),
            None => find_byte(s@.skip(from as int), b) is None,
        },
{
    let mut i: usize = from;
    while i < s.len()
        invariant
            from <= i <= s@.len(),
            forall|k: int| from <= k < i ==> s@[k] != b,
        decreases s@.len() - i,
    {
        if s[i] == b {
            proof {
                let t = s@.skip(from as int);
                assert(t[i - from] == s@[i as int]);
                assert forall|k: int| 0 <= k < i - from implies t[k] != b by {
                    assert(t[k] == s@[k + from]);
                }
                lemma_find_byte_is(t, b, i - from);
            }
            return Some(i);
        }
        i = i + 1;
    }
    proof {
        let t = s@.skip(from as int);
        assert forall|k: int| 0 <= k < t.len() implies t[k] != b by {
            assert(t[k] == s@[k + from]);
        }
        lemma_find_byte_none(t, b);
    }
    None
}

/// The division of `s` into the parts separated by `sep`: one part more
/// than there are separators, in order, each part free of `sep`.
pub open spec fn split_on(s: Seq<u8>, sep: u8) -> Seq<Seq<u8>>
    decreases s.len(),
    via split_on_decreases
{
    match find_byte(s, sep) {
        None => seq![s],
        Some(i) => seq![s.subrange(0, i)] + split_on(s.skip(i + 1), sep),
    }
}

#[via_fn]
proof fn split_on_decreases(s: Seq<u8>, sep: u8) {
    lemma_find_byte(s, sep);
}

/// Whether `b` occurs nowhere in `s`.
pub open spec fn free_of(s: Seq<u8>, b: u8) -> bool {
    forall|k: int| 0 <= k < s.len() ==> s[k] != b
}

/// Concatenation preserves freeness.
pub proof fn lemma_free_concat(x: Seq<u8>, y: Seq<u8>, b: u8)
    requires
        free_of(x, b),
        free_of(y, b),
    ensures
        free_of(x + y, b),
{
    assert forall|k: int| 0 <= k < (x + y).len() implies (x + y)[k] != b by {
        if k < x.len() {
            assert((x + y)[k] == x[k]);
        } else {
            assert((x + y)[k] == y[k - x.len()]);
        }
    }
}

/// A string free of the separator splits into itself alone.
pub proof fn lemma_split_no_sep(s: Seq<u8>, sep: u8)
    requires
        free_of(s, sep),
    ensures
        split_on(s, sep) == seq![s],
{
    lemma_find_byte_none(s, sep);
}

/// A string that begins with a separator-free part, then the separator,
/// splits into that part followed by the split of the remainder.
pub proof fn lemma_split_prepend(a: Seq<u8>, rest: Seq<u8>, sep: u8)
    requires
        free_of(a, sep),
    ensures
        split_on(a + seq![sep] + rest, sep) == seq![a] + split_on(rest, sep),
{
    let s = a + seq![sep] + rest;
    assert(s[a.len() as int] == (a + seq![sep])[a.len() as int]);
    assert(s[a.len() as int] == sep);
    assert forall|k: int| 0 <= k < a.len() implies s[k] != sep by {
        assert(s[k] == (a + seq![sep])[k]);
        assert(s[k] == a[k]);
    }
    lemma_find_byte_is(s, sep, a.len() as int);
    assert(s.subrange(0, a.len() as int) =~= a);
    assert(s.skip(a.len() as int + 1) =~= rest);
}

/// A split always yields at least one part.
pub proof fn lemma_split_on_nonempty(s: Seq<u8>, sep: u8)
    ensures
        split_on(s, sep).len() >= 1,
{
    lemma_find_byte(s, sep);
}

/// The views of a sequence of byte vectors.
pub open spec fn part_views(ps: Seq<Vec<u8>>) -> Seq<Seq<u8>> {
    ps.map_values(|p: Vec<u8>| p@)
}

/// Splits `s` into its `sep`-separated parts.
pub fn split_bytes(s: &Vec<u8>, sep: u8) -> (r: Vec<Vec<u8>>)
    ensures
        part_views(r@) == split_on(s@, sep),
{
    let mut r: Vec<Vec<u8>> = Vec::new();
    let mut start: usize = 0;
    proof {
        assert(s@.skip(0) =~= s@);
        assert(part_views(r@) + split_on(s@, sep) =~= split_on(s@, sep));
    }
    loop
        invariant
            start <= s@.len(),
            split_on(s@, sep) == part_views(r@) + split_on(s@.skip(start as int), sep),
        decreases s@.len() - start + 1,
    {
        let ghost tail = s@.skip(start as int);
        match find_byte_from(s, start, sep) {
            None => {
                let part = subvec(s, start, s.len());
                r.push(part);
                proof {
                    assert(part@ =~= tail);
                    assert(split_on(tail, sep) == seq![tail]);
                    assert(part_views(r@) =~= part_views(r@.drop_last()) + seq![tail]);
                    assert((part_views(r@.drop_last()) + seq![tail]) + Seq::<Seq<u8>>::empty()
                        =~= part_views(r@.drop_last()) + seq![tail]);
                    assert(part_views(r@) + Seq::<Seq<u8>>::empty() =~= part_views(r@));
                }
                return r;
            },
            Some(j) => {
                let n = s.len();
                assert(j < n);
                let part = subvec(s, start, j);
                r.push(part);
                proof {
                    assert(part@ =~= tail.subrange(0, j - start));
                    assert(split_on(tail, sep) == seq![tail.subrange(0, j - start)] + split_on(
                        tail.skip(j - start + 1),
                        sep,
                    ));
                    assert(tail.skip(j - start + 1) =~= s@.skip(j + 1));
                    assert(part_views(r@) =~= part_views(r@.drop_last()) + seq![part@]);
                    assert((part_views(r@.drop_last()) + seq![part@]) + split_on(
                        s@.skip(j + 1),
                        sep,
                    ) =~= part_views(r@.drop_last()) + (seq![part@] + split_on(
                        s@.skip(j + 1),
                        sep,
                    )));
                }
                start = j + 1;
            },
        }
    }
}

/// The key that introduces a text directive segment: `text=`.
pub open spec fn text_key() -> Seq<u8> {
    seq![0x74u8, 0x65u8, 0x78u8, 0x74u8, 0x3du8]
}

/// The directive marker `:~:` that separates a fragment from its directive
/// payload.
pub open spec fn marker() -> Seq<u8> {
    seq![0x3au8, 0x7eu8, 0x3au8]
}

/// The reading of one comma-separated `text=` value,
/// `[prefix-,]start[,end][,-suffix]`, left to right: a first part ending in
/// `-` is the prefix, the next part is the mandatory start, a further part
/// not beginning with `-` is the end, and a further part beginning with `-`
/// is the suffix. Each captured part is percent-decoded; the result is
/// nothing unless the decoded start is non-empty.
pub open spec fn parse_value_spec(v: Seq<u8>) -> Option<DirectiveView> {
    let parts = split_on(v, COMMA);
    let has_prefix = parts[0].len() > 0 && parts[0][parts[0].len() - 1] == DASH;
    let prefix_raw = if has_prefix {
        parts[0].take(parts[0].len() - 1)
    } else {
        Seq::empty()
    };
    let i = if has_prefix {
        1int
    } else {
        0int
    };
    if parts.len() <= i {
        None
    } else {
        let start = decode_spec(parts[i]);
        if start.len() == 0 {
            None
        } else {
            let has_end = i + 1 < parts.len() && !(parts[i + 1].len() > 0 && parts[i + 1][0]
                == DASH);
            let end_raw = if has_end {
                parts[i + 1]
            } else {
                Seq::empty()
            };
            let k = if has_end {
                i + 2
            } else {
                i + 1
            };
            let has_suffix = k < parts.len() && parts[k].len() > 0 && parts[k][0] == DASH;
            let suffix_raw = if has_suffix {
                parts[k].skip(1)
            } else {
                Seq::empty()
            };
            Some(
                DirectiveView {
                    prefix: decode_spec(prefix_raw),
                    start,
                    end: decode_spec(end_raw),
                    suffix: decode_spec(suffix_raw),
                },
            )
        }
    }
}

/// The reading of one `&`-separated payload segment: a directive for a
/// well-formed `text=` value, nothing for any other key.
pub open spec fn parse_segment_spec(seg: Seq<u8>) -> Option<DirectiveView> {
    if seq_starts_with(seg, text_key()) {
        parse_value_spec(seg.skip(text_key().len() as int))
    } else {
        None
    }
}

/// The directives of a sequence of segments, in segment order, segments
/// that yield none being dropped.
pub open spec fn parse_segments_spec(segs: Seq<Seq<u8>>) -> Seq<DirectiveView>
    decreases segs.len(),
{
    if segs.len() == 0 {
        Seq::empty()
    } else {
        parse_segments_spec(segs.drop_last()) + match parse_segment_spec(segs.last()) {
            Some(d) => seq![d],
            None => Seq::empty(),
        }
    }
}

/// The directives of a whole payload.
pub open spec fn tokenize_spec(payload: Seq<u8>) -> Seq<DirectiveView> {
    parse_segments_spec(split_on(payload, AMPERSAND))
}

/// A directive read from a segment always has a non-empty start.
pub proof fn lemma_parsed_valid(seg: Seq<u8>)
    ensures
        parse_segment_spec(seg) matches Some(d) ==> d.is_valid(),
{
}

/// The view of an optional directive.
pub open spec fn opt_directive_view(r: Option<TextDirective>) -> Option<DirectiveView> {
    match r {
        Some(d) => Some(d@),
        None => None,
    }
}

/// Reads one comma-separated `text=` value into a directive, if its
/// decoded start is non-empty.
pub fn parse_text_directive_value(value: &Vec<u8>) -> (r: Option<TextDirective>)
    ensures
        opt_directive_view(r) == parse_value_spec(value@),
{
    let parts = split_bytes(value, COMMA);
    proof {
        lemma_split_on_nonempty(value@, COMMA);
        assert(part_views(parts@).len() >= 1);
    }
    let ghost sparts = split_on(value@, COMMA);
    let first_len = parts[0].len();
    let has_prefix = first_len > 0 && parts[0][first_len - 1] == DASH;
    proof {
        assert(sparts[0] == parts@[0]@);
    }
    let prefix_raw: Vec<u8> = if has_prefix {
        let p = subvec(&parts[0], 0, first_len - 1);
        proof {
            assert(p@ =~= sparts[0].take(sparts[0].len() - 1));
        }
        p
    } else {
        Vec::new()
    };
    proof {
        assert(prefix_raw@ == if has_prefix {
            sparts[0].take(sparts[0].len() - 1)
        } else {
            Seq::<u8>::empty()
        });
    }
    let i: usize = if has_prefix {
        1
    } else {
        0
    };
    if parts.len() <= i {
        return None;
    }
    proof {
        assert(sparts[i as int] == parts@[i as int]@);
    }
    let start = percent_decode(&parts[i]);
    if start.len() == 0 {
        return None;
    }
    let has_end = i + 1 < parts.len() && !(parts[i + 1].len() > 0 && parts[i + 1][0] == DASH);
    proof {
        if i + 1 < parts.len() {
            assert(sparts[i + 1] == parts@[i + 1]@);
        }
    }
    let end_raw: Vec<u8> = if has_end {
        subvec(&parts[i + 1], 0, parts[i + 1].len())
    } else {
        Vec::new()
    };
    proof {
        if has_end {
            assert(end_raw@ =~= sparts[i + 1]);
        } else {
            assert(end_raw@ =~= Seq::<u8>::empty());
        }
    }
    let k: usize = if has_end {
        i + 2
    } else {
        i + 1
    };
    let has_suffix = k < parts.len() && parts[k].len() > 0 && parts[k][0] == DASH;
    proof {
        if k < parts.len() {
            assert(sparts[k as int] == parts@[k as int]@);
        }
    }
    let suffix_raw: Vec<u8> = if has_suffix {
        let q = subvec(&parts[k], 1, parts[k].len());
        proof {
            assert(q@ =~= sparts[k as int].skip(1));
        }
        q
    } else {
        Vec::new()
    };
    let d = TextDirective {
        prefix: percent_decode(&prefix_raw),
        start,
        end: percent_decode(&end_raw),
        suffix: percent_decode(&suffix_raw),
    };
    Some(d)
}

/// Reads one payload segment: a directive when the key is `text=` and the
/// value is well formed, nothing otherwise.
pub fn parse_text_directive_segment(seg: &Vec<u8>) -> (r: Option<TextDirective>)
    ensures
        opt_directive_view(r) == parse_segment_spec(seg@),
{
    let key: Vec<u8> = vec![0x74u8, 0x65u8, 0x78u8, 0x74u8, 0x3du8];
    proof {
        assert(key@ =~= text_key());
    }
    if !starts_with_bytes(seg, &key) {
        return None;
    }
    let value = subvec(seg, 5, seg.len());
    proof {
        assert(value@ =~= seg@.skip(text_key().len() as int));
    }
    parse_text_directive_value(&value)
}

/// Tokenizes a directive payload: its `&`-separated segments are read in
/// order, and every directive with a usable start is kept.
pub fn tokenize_payload(payload: &Vec<u8>) -> (r: Vec<TextDirective>)
    ensures
        directive_views(r@) == tokenize_spec(payload@),
        forall|k: int| 0 <= k < r@.len() ==> (#[trigger] r@[k])@.is_valid(),
{
    let segments = split_bytes(payload, AMPERSAND);
    let ghost ssegs = split_on(payload@, AMPERSAND);
    let mut r: Vec<TextDirective> = Vec::new();
    let mut i: usize = 0;
    proof {
        assert(part_views(segments@).take(0) =~= Seq::<Seq<u8>>::empty());
        assert(directive_views(r@) =~= parse_segments_spec(ssegs.take(0)));
    }
    while i < segments.len()
        invariant
            i <= segments@.len(),
            part_views(segments@) == ssegs,
            directive_views(r@) == parse_segments_spec(ssegs.take(i as int)),
            forall|k: int| 0 <= k < r@.len() ==> (#[trigger] r@[k])@.is_valid(),
        decreases segments@.len() - i,
    {
        let ghost r_old = r@;
        let parsed = parse_text_directive_segment(&segments[i]);
        proof {
            assert(segments@[i as int]@ == ssegs[i as int]);
            lemma_parsed_valid(ssegs[i as int]);
        }
        match parsed {
            Some(d) => {
                r.push(d);
                proof {
                    assert(directive_views(r@) =~= directive_views(r_old) + seq![r@.last()@]);
                }
            },
            None => {},
        }
        proof {
            assert(ssegs.take(i + 1).drop_last() =~= ssegs.take(i as int));
            assert(ssegs.take(i + 1).last() == ssegs[i as int]);
            assert(parse_segments_spec(ssegs.take(i + 1)) == parse_segments_spec(ssegs.take(i as int))
                + match parse_segment_spec(ssegs[i as int]) {
                Some(d) => seq![d],
                None => Seq::empty(),
            });
            if parsed is None {
                assert(directive_views(r@) + Seq::<DirectiveView>::empty() =~= directive_views(r@));
            }
        }
        i = i + 1;
    }
    proof {
        assert(ssegs.take(i as int) =~= ssegs);
    }
    r
}

/// The index of the first occurrence of the directive marker in `s`, if
/// any.
pub open spec fn find_marker(s: Seq<u8>) -> Option<int>
    decreases s.len(),
{
    if s.len() < 3 {
        None
    } else if s.subrange(0, 3) == marker() {
        Some(0)
    } else {
        match find_marker(s.skip(1)) {
            Some(i) => Some(i + 1),
            None => None,
        }
    }
}

/// Whether the directive marker stands at position `k` of `s`.
pub open spec fn marker_at(s: Seq<u8>, k: int) -> bool {
    0 <= k && k + 3 <= s.len() && s.subrange(k, k + 3) == marker()
}

/// What `find_marker` returns: the first occurrence, or nothing when the
/// marker does not occur.
pub proof fn lemma_find_marker(s: Seq<u8>)
    ensures
        match find_marker(s) {
            Some(i) => marker_at(s, i) && forall|k: int| 0 <= k < i ==> !marker_at(s, k),
            None => forall|k: int| !marker_at(s, k),
        },
    decreases s.len(),
{
    if s.len() < 3 {
    } else if s.subrange(0, 3) == marker() {
    } else {
        lemma_find_marker(s.skip(1));
        match find_marker(s.skip(1)) {
            Some(i) => {
                assert(s.skip(1).subrange(i, i + 3) =~= s.subrange(i + 1, i + 4));
                assert(marker_at(s, i + 1));
                assert forall|k: int| 0 <= k < i + 1 implies !marker_at(s, k) by {
                    if k > 0 {
                        assert(s.skip(1).subrange(k - 1, k + 2) =~= s.subrange(k, k + 3));
                        assert(!marker_at(s.skip(1), k - 1));
                    }
                }
            },
            None => {
                assert forall|k: int| !marker_at(s, k) by {
                    if 0 < k && k + 3 <= s.len() {
                        assert(s.skip(1).subrange(k - 1, k + 2) =~= s.subrange(k, k + 3));
                        assert(!marker_at(s.skip(1), k - 1));
                    }
                }
            },
        }
    }
}

/// A witness for the first occurrence pins `find_marker` down.
pub proof fn lemma_find_marker_is(s: Seq<u8>, j: int)
    requires
        marker_at(s, j),
        forall|k: int| 0 <= k < j ==> !marker_at(s, k),
    ensures
        find_marker(s) == Some(j),
    decreases s.len(),
{
    if j == 0 {
    } else {
        assert(!marker_at(s, 0));
        assert(s.subrange(0, 3) != marker());
        assert(s.skip(1).subrange(j - 1, j + 2) =~= s.subrange(j, j + 3));
        assert(marker_at(s.skip(1), j - 1));
        assert forall|k: int| 0 <= k < j - 1 implies !marker_at(s.skip(1), k) by {
            assert(s.skip(1).subrange(k, k + 3) =~= s.subrange(k + 1, k + 4));
            assert(!marker_at(s, k + 1));
        }
        lemma_find_marker_is(s.skip(1), j - 1);
    }
}

/// Finds the first occurrence of the directive marker.
fn find_marker_exec(s: &Vec<u8>) -> (r: Option<usize>)
    ensures
        match r {
            Some(j) => find_marker(s@) == Some(j as int),
            None => find_marker(s@) is None,
        },
{
    if s.len() < 3 {
        proof {
            lemma_find_marker(s@);
        }
        return None;
    }
    let n = s.len();
    let mut i: usize = 0;
    while i <= n - 3
        invariant
            3 <= n == s@.len(),
            i <= n - 2,
            forall|k: int| 0 <= k < i ==> !marker_at(s@, k),
        decreases n - i,
    {
        if s[i] == 0x3a && s[i + 1] == 0x7e && s[i + 2] == 0x3a {
            proof {
                assert(s@.subrange(i as int, i + 3) =~= marker());
                assert(marker_at(s@, i as int));
                lemma_find_marker_is(s@, i as int);
            }
            return Some(i);
        }
        proof {
            let t = s@.subrange(i as int, i + 3);
            assert(t[0] == s@[i as int] && t[1] == s@[i + 1] && t[2] == s@[i + 2]);
            assert(t != marker());
        }
        i = i + 1;
    }
    proof {
        assert forall|k: int| !marker_at(s@, k) by {
            if 0 <= k && k + 3 <= s@.len() {
                assert(k < i);
            }
        }
        lemma_find_marker(s@);
        if find_marker(s@) is Some {
            let j = find_marker(s@)->Some_0;
            assert(marker_at(s@, j));
        }
    }
    None
}

/// The outcome of splitting a fragment at the directive marker and
/// tokenizing the payload: the fragment with the whole directive stripped,
/// the raw payload kept for diagnostics, and the directives read from it.
pub struct ParsedFragmentDirectiveResult {
    pub hash_without_fragment_directive: Vec<u8>,
    pub fragment_directive: Vec<u8>,
    pub text_directives: Vec<TextDirective>,
}

/// Parses the fragment directive out of a URL fragment. The result is
/// nothing exactly when the fragment holds no directive marker; any
/// occurrence of the marker, well formed or not, yields a result, whose
/// directive list holds every `text=` directive with a usable start, in
/// order.
pub fn parse_fragment_directive(hash: &Vec<u8>) -> (r: Option<ParsedFragmentDirectiveResult>)
    ensures
        r is Some <==> find_marker(hash@) is Some,
        r matches Some(p) ==> (find_marker(hash@) matches Some(i)
            && p.hash_without_fragment_directive@ == hash@.subrange(0, i) && p.fragment_directive@
            == hash@.skip(i + 3) && directive_views(p.text_directives@) == tokenize_spec(
            hash@.skip(i + 3),
        ) && forall|k: int|
            0 <= k < p.text_directives@.len() ==> (#[trigger] p.text_directives@[k])@.is_valid()),
{
    match find_marker_exec(hash) {
        None => None,
        Some(i) => {
            proof {
                lemma_find_marker(hash@);
            }
            let n = hash.len();
            proof {
                assert(i + 3 <= n);
            }
            let base = subvec(hash, 0, i);
            let payload = subvec(hash, i + 3, n);
            proof {
                assert(payload@ =~= hash@.skip(i + 3));
            }
            let directives = tokenize_payload(&payload);
            Some(
                ParsedFragmentDirectiveResult {
                    hash_without_fragment_directive: base,
                    fragment_directive: payload,
                    text_directives: directives,
                },
            )
        },
    }
}

} // verus!
