//! Rendering `TextDirective` records back into the percent-encoded wire
//! grammar, the inverse of tokenization.

use vstd::prelude::*;

use crate::directive::{DirectiveView, TextDirective, directive_views};
use crate::parse::{marker, text_key};
use crate::percent::{AMPERSAND, COMMA, DASH, encode_spec, percent_encode};

verus! {

/// The wire form of one directive's value:
/// `[prefix-,]start[,end][,-suffix]`, each part percent-encoded, empty
/// parts left out.
pub open spec fn serialize_value_spec(d: DirectiveView) -> Seq<u8> {
    (if d.prefix.len() > 0 {
        encode_spec(d.prefix) + seq![DASH, COMMA]
    } else {
        Seq::empty()
    }) + encode_spec(d.start) + (if d.end.len() > 0 {
        seq![COMMA] + encode_spec(d.end)
    } else {
        Seq::empty()
    }) + (if d.suffix.len() > 0 {
        seq![COMMA, DASH] + encode_spec(d.suffix)
    } else {
        Seq::empty()
    })
}

/// The wire form of one directive: `text=` followed by its value.
pub open spec fn serialize_text_spec(d: DirectiveView) -> Seq<u8> {
    text_key() + serialize_value_spec(d)
}

/// Whether some directive of `ds` is valid.
pub open spec fn any_valid(ds: Seq<DirectiveView>) -> bool {
    exists|k: int| 0 <= k < ds.len() && ds[k].is_valid()
}

/// The wire form of a list of directives: the valid ones serialized in
/// order and joined with `&`, the invalid ones skipped.
pub open spec fn serialize_list_spec(ds: Seq<DirectiveView>) -> Seq<u8>
    decreases ds.len(),
{
    if ds.len() == 0 {
        Seq::empty()
    } else if !ds.last().is_valid() {
        serialize_list_spec(ds.drop_last())
    } else if !any_valid(ds.drop_last()) {
        serialize_text_spec(ds.last())
    } else {
        serialize_list_spec(ds.drop_last()) + seq![AMPERSAND] + serialize_text_spec(ds.last())
    }
}

/// A list without a valid directive serializes to nothing.
pub proof fn lemma_serialize_list_empty(ds: Seq<DirectiveView>)
    requires
        !any_valid(ds),
    ensures
        serialize_list_spec(ds) == Seq::<u8>::empty(),
    decreases ds.len(),
{
    if ds.len() == 0 {
    } else {
        assert(!ds[ds.len() - 1].is_valid());
        if any_valid(ds.drop_last()) {
            let k = choose|k: int| 0 <= k < ds.drop_last().len() && ds.drop_last()[k].is_valid();
            assert(ds[k].is_valid());
        }
        lemma_serialize_list_empty(ds.drop_last());
    }
}

/// Appends the bytes of `src` to `out`.
fn push_all(out: &mut Vec<u8>, src: &Vec<u8>)
    ensures
        final(out)@ == old(out)@ + src@,
{
    let mut i: usize = 0;
    proof {
        assert(out@ =~= out@ + src@.subrange(0, 0));
    }
    while i < src.len()
        invariant
            i <= src@.len(),
            out@ == old(out)@ + src@.subrange(0, i as int),
        decreases src@.len() - i,
    {
        out.push(src[i]);
        proof {
            assert(old(out)@ + src@.subrange(0, i + 1) =~= (old(out)@ + src@.subrange(0, i as int))
                + seq![src@[i as int]]);
        }
        i = i + 1;
    }
    proof {
        assert(src@.subrange(0, src@.len() as int) =~= src@);
    }
}

/// Renders one directive's value in wire form.
fn serialize_value(d: &TextDirective) -> (r: Vec<u8>)
    ensures
        r@ == serialize_value_spec(d@),
{
    let mut out: Vec<u8> = Vec::new();
    if d.prefix.len() > 0 {
        let enc = percent_encode(&d.prefix);
        push_all(&mut out, &enc);
        out.push(DASH);
        out.push(COMMA);
    }
    let ghost after_prefix = out@;
    proof {
        assert(after_prefix =~= (if d@.prefix.len() > 0 {
            encode_spec(d@.prefix) + seq![DASH, COMMA]
        } else {
            Seq::<u8>::empty()
        }));
    }
    let enc_start = percent_encode(&d.start);
    push_all(&mut out, &enc_start);
    if d.end.len() > 0 {
        out.push(COMMA);
        let enc = percent_encode(&d.end);
        push_all(&mut out, &enc);
    }
    let ghost after_end = out@;
    proof {
        assert(after_end =~= after_prefix + encode_spec(d@.start) + (if d@.end.len() > 0 {
            seq![COMMA] + encode_spec(d@.end)
        } else {
            Seq::<u8>::empty()
        }));
    }
    if d.suffix.len() > 0 {
        out.push(COMMA);
        out.push(DASH);
        let enc = percent_encode(&d.suffix);
        push_all(&mut out, &enc);
    }
    proof {
        assert(out@ =~= after_end + (if d@.suffix.len() > 0 {
            seq![COMMA, DASH] + encode_spec(d@.suffix)
        } else {
            Seq::<u8>::empty()
        }));
        assert(out@ =~= serialize_value_spec(d@));
    }
    out
}

/// Renders one directive in wire form, `text=` included: the result is
/// nothing exactly when the directive is invalid, that is when its start is
/// empty.
pub fn create_text_directive(d: &TextDirective) -> (r: Option<Vec<u8>>)
    ensures
        d@.is_valid() ==> (r matches Some(v) && v@ == serialize_text_spec(d@)),
        !d@.is_valid() ==> r is None,
{
    if d.start.len() == 0 {
        return None;
    }
    let mut out: Vec<u8> = vec![0x74u8, 0x65u8, 0x78u8, 0x74u8, 0x3du8];
    proof {
        assert(out@ =~= text_key());
    }
    let value = serialize_value(d);
    push_all(&mut out, &value);
    Some(out)
}

/// Renders a list of directives in wire form, the marker included: the
/// valid ones are serialized in order and joined with `&`; the result is
/// nothing exactly when no directive is valid.
pub fn create_fragment_directive(directives: &Vec<TextDirective>) -> (r: Option<Vec<u8>>)
    ensures
        r is Some <==> any_valid(directive_views(directives@)),
        r matches Some(v) ==> v@ == marker() + serialize_list_spec(directive_views(directives@)),
{
    let ghost views = directive_views(directives@);
    let mut payload: Vec<u8> = Vec::new();
    let mut any: bool = false;
    let mut i: usize = 0;
    proof {
        assert(views.take(0) =~= Seq::<DirectiveView>::empty());
        assert(!any_valid(views.take(0)));
        assert(payload@ =~= serialize_list_spec(views.take(0)));
    }
    while i < directives.len()
        invariant
            i <= directives@.len(),
            views == directive_views(directives@),
            any == any_valid(views.take(i as int)),
            payload@ == serialize_list_spec(views.take(i as int)),
        decreases directives@.len() - i,
    {
        let ghost payload_old = payload@;
        let ghost prefix_views = views.take(i as int);
        proof {
            assert(views.take(i + 1).drop_last() =~= prefix_views);
            assert(views.take(i + 1).last() == views[i as int]);
            assert(views[i as int] == directives@[i as int]@);
        }
        if directives[i].start.len() > 0 {
            if any {
                payload.push(AMPERSAND);
            }
            let piece = match create_text_directive(&directives[i]) {
                Some(p) => p,
                None => Vec::new(),
            };
            push_all(&mut payload, &piece);
            proof {
                if any_valid(prefix_views) {
                    assert(payload@ =~= serialize_list_spec(prefix_views) + seq![AMPERSAND]
                        + serialize_text_spec(views[i as int]));
                } else {
                    lemma_serialize_list_empty(prefix_views);
                    assert(payload_old =~= Seq::<u8>::empty());
                    assert(payload@ =~= serialize_text_spec(views[i as int]));
                }
                assert(any_valid(views.take(i + 1)));
            }
            any = true;
        } else {
            proof {
                assert(!views[i as int].is_valid());
                assert(serialize_list_spec(views.take(i + 1)) == serialize_list_spec(prefix_views));
                assert forall|k: int|
                    0 <= k < views.take(i + 1).len() && views.take(i + 1)[k].is_valid() implies 0
                    <= k < prefix_views.len() && prefix_views[k].is_valid() by {
                    assert(k != i);
                }
                assert(any_valid(views.take(i + 1)) == any_valid(prefix_views));
            }
        }
        i = i + 1;
    }
    proof {
        assert(views.take(i as int) =~= views);
    }
    if !any {
        return None;
    }
    let mut out: Vec<u8> = vec![0x3au8, 0x7eu8, 0x3au8];
    proof {
        assert(out@ =~= marker());
    }
    push_all(&mut out, &payload);
    Some(out)
}

} // verus!
