//! The round-trip law: serializing a valid directive and tokenizing the
//! result yields exactly that directive back.

use vstd::prelude::*;

use crate::directive::DirectiveView;
use crate::parse::{
    free_of, lemma_free_concat, lemma_split_no_sep, lemma_split_prepend, parse_segment_spec,
    parse_segments_spec, parse_value_spec, split_on, text_key, tokenize_spec,
};
use crate::percent::{
    AMPERSAND, COMMA, DASH, decode_spec, encode_spec, lemma_decode_encode,
    lemma_encode_no_separators, lemma_encode_len,
};
use crate::serialize::{serialize_text_spec, serialize_value_spec};

verus! {

/// An encoding is free of the three separator bytes.
proof fn lemma_encode_free(s: Seq<u8>)
    ensures
        free_of(encode_spec(s), COMMA),
        free_of(encode_spec(s), DASH),
        free_of(encode_spec(s), AMPERSAND),
{
    lemma_encode_no_separators(s);
}

/// The wire form of a valid directive holds no `&`.
proof fn lemma_serialized_amp_free(d: DirectiveView)
    ensures
        free_of(serialize_text_spec(d), AMPERSAND),
{
    let ep = encode_spec(d.prefix);
    let es = encode_spec(d.start);
    let ee = encode_spec(d.end);
    let ex = encode_spec(d.suffix);
    lemma_encode_free(d.prefix);
    lemma_encode_free(d.start);
    lemma_encode_free(d.end);
    lemma_encode_free(d.suffix);
    let ppiece = if d.prefix.len() > 0 {
        ep + seq![DASH, COMMA]
    } else {
        Seq::<u8>::empty()
    };
    let epiece = if d.end.len() > 0 {
        seq![COMMA] + ee
    } else {
        Seq::<u8>::empty()
    };
    let spiece = if d.suffix.len() > 0 {
        seq![COMMA, DASH] + ex
    } else {
        Seq::<u8>::empty()
    };
    assert(free_of(seq![DASH, COMMA], AMPERSAND));
    assert(free_of(seq![COMMA], AMPERSAND));
    assert(free_of(seq![COMMA, DASH], AMPERSAND));
    assert(free_of(Seq::<u8>::empty(), AMPERSAND));
    lemma_free_concat(ep, seq![DASH, COMMA], AMPERSAND);
    lemma_free_concat(seq![COMMA], ee, AMPERSAND);
    lemma_free_concat(seq![COMMA, DASH], ex, AMPERSAND);
    assert(free_of(ppiece, AMPERSAND));
    assert(free_of(epiece, AMPERSAND));
    assert(free_of(spiece, AMPERSAND));
    lemma_free_concat(ppiece, es, AMPERSAND);
    lemma_free_concat(ppiece + es, epiece, AMPERSAND);
    lemma_free_concat(ppiece + es + epiece, spiece, AMPERSAND);
    assert(serialize_value_spec(d) == ppiece + es + epiece + spiece);
    assert(free_of(text_key(), AMPERSAND));
    lemma_free_concat(text_key(), serialize_value_spec(d), AMPERSAND);
}

/// Tokenizing the wire form of one valid directive reads that directive
/// back, field for field.
pub proof fn lemma_round_trip(d: DirectiveView)
    requires
        d.is_valid(),
    ensures
        tokenize_spec(serialize_text_spec(d)) == seq![d],
{
    let ep = encode_spec(d.prefix);
    let es = encode_spec(d.start);
    let ee = encode_spec(d.end);
    let ex = encode_spec(d.suffix);
    lemma_encode_free(d.prefix);
    lemma_encode_free(d.start);
    lemma_encode_free(d.end);
    lemma_encode_free(d.suffix);
    lemma_decode_encode(d.prefix);
    lemma_decode_encode(d.start);
    lemma_decode_encode(d.end);
    lemma_decode_encode(d.suffix);
    lemma_encode_len(d.start);
    assert(es.len() > 0);
    assert(decode_spec(Seq::<u8>::empty()) == Seq::<u8>::empty());
    let v = serialize_value_spec(d);
    let s = serialize_text_spec(d);

    // One segment: the wire form holds no `&`.
    lemma_serialized_amp_free(d);
    lemma_split_no_sep(s, AMPERSAND);
    assert(split_on(s, AMPERSAND) == seq![s]);
    assert(seq![s].drop_last() =~= Seq::<Seq<u8>>::empty());
    assert(parse_segments_spec(Seq::<Seq<u8>>::empty()) == Seq::<DirectiveView>::empty());
    assert(seq![s].last() == s);

    // The segment starts with the `text=` key, and its value is `v`.
    assert(s.subrange(0, text_key().len() as int) =~= text_key());
    assert(s.skip(text_key().len() as int) =~= v);

    // The value splits at the commas into the expected parts.
    let hp = d.prefix.len() > 0;
    let he = d.end.len() > 0;
    let hs = d.suffix.len() > 0;
    let sfx = seq![DASH] + ex;
    assert(free_of(seq![DASH], COMMA));
    lemma_free_concat(seq![DASH], ex, COMMA);
    assert(free_of(sfx, COMMA));
    let parts = split_on(v, COMMA);
    if hp {
        let p0 = ep + seq![DASH];
        lemma_free_concat(ep, seq![DASH], COMMA);
        assert(p0[p0.len() - 1] == DASH);
        assert(p0.take(p0.len() - 1) =~= ep);
        if he {
            if hs {
                let rest2 = ee + seq![COMMA] + sfx;
                let rest1 = es + seq![COMMA] + rest2;
                assert(v =~= p0 + seq![COMMA] + rest1);
                lemma_split_prepend(p0, rest1, COMMA);
                lemma_split_prepend(es, rest2, COMMA);
                lemma_split_prepend(ee, sfx, COMMA);
                lemma_split_no_sep(sfx, COMMA);
                assert(parts =~= seq![p0, es, ee, sfx]);
            } else {
                let rest1 = es + seq![COMMA] + ee;
                assert(v =~= p0 + seq![COMMA] + rest1);
                lemma_split_prepend(p0, rest1, COMMA);
                lemma_split_prepend(es, ee, COMMA);
                lemma_split_no_sep(ee, COMMA);
                assert(parts =~= seq![p0, es, ee]);
            }
        } else {
            if hs {
                let rest1 = es + seq![COMMA] + sfx;
                assert(v =~= p0 + seq![COMMA] + rest1);
                lemma_split_prepend(p0, rest1, COMMA);
                lemma_split_prepend(es, sfx, COMMA);
                lemma_split_no_sep(sfx, COMMA);
                assert(parts =~= seq![p0, es, sfx]);
            } else {
                assert(v =~= p0 + seq![COMMA] + es);
                lemma_split_prepend(p0, es, COMMA);
                lemma_split_no_sep(es, COMMA);
                assert(parts =~= seq![p0, es]);
            }
        }
    } else {
        if he {
            if hs {
                let rest2 = ee + seq![COMMA] + sfx;
                assert(v =~= es + seq![COMMA] + rest2);
                lemma_split_prepend(es, rest2, COMMA);
                lemma_split_prepend(ee, sfx, COMMA);
                lemma_split_no_sep(sfx, COMMA);
                assert(parts =~= seq![es, ee, sfx]);
            } else {
                assert(v =~= es + seq![COMMA] + ee);
                lemma_split_prepend(es, ee, COMMA);
                lemma_split_no_sep(ee, COMMA);
                assert(parts =~= seq![es, ee]);
            }
        } else {
            if hs {
                assert(v =~= es + seq![COMMA] + sfx);
                lemma_split_prepend(es, sfx, COMMA);
                lemma_split_no_sep(sfx, COMMA);
                assert(parts =~= seq![es, sfx]);
            } else {
                assert(v =~= es);
                lemma_split_no_sep(es, COMMA);
                assert(parts =~= seq![es]);
            }
        }
    }

    // Walking the parts reads the directive's fields back.
    if !hp {
        assert(parts[0] == es);
        assert(es[es.len() - 1] != DASH);
        assert(d.prefix =~= Seq::<u8>::empty());
    }
    if he {
        assert(ee.len() > 0) by {
            lemma_encode_len(d.end);
        }
        assert(ee[0] != DASH);
    } else {
        assert(d.end =~= Seq::<u8>::empty());
    }
    if hs {
        assert(sfx[0] == DASH);
        assert(sfx.len() > 0);
        assert(sfx.skip(1) =~= ex);
    } else {
        assert(d.suffix =~= Seq::<u8>::empty());
    }
    let r = parse_value_spec(v);
    assert(r is Some && r->Some_0 =~= d);
    assert(parse_value_spec(v) == Some(d));
    assert(parse_segment_spec(s) == Some(d));
    assert(tokenize_spec(s) == Seq::<DirectiveView>::empty() + seq![d]);
    assert(Seq::<DirectiveView>::empty() + seq![d] =~= seq![d]);
}

} // verus!
