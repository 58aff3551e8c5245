//! The application name under which a profile is uploaded: the name with the
//! run's tags appended in sorted order.
use vstd::prelude::*;

use crate::text::chars_of;

verus! {

/// `a` sorts before or equal to `b`, character by character (the order of
/// Rust's `str` comparison).
pub open spec fn lex_le(a: Seq<char>, b: Seq<char>) -> bool
    decreases a.len(),
{
    if a.len() == 0 {
        true
    } else if b.len() == 0 {
        false
    } else if (a[0] as u32) != (b[0] as u32) {
        (a[0] as u32) < (b[0] as u32)
    } else {
        lex_le(a.drop_first(), b.drop_first())
    }
}

/// Every element sorts before or equal to every later one.
pub open spec fn sorted_lex(s: Seq<Seq<char>>) -> bool {
    forall|i: int, j: int| 0 <= i < j < s.len() ==> lex_le(#[trigger] s[i], #[trigger] s[j])
}

/// The reserved tag key, which is never appended.
pub open spec fn reserved_key() -> Seq<char> {
    seq!['_', '_', 'n', 'a', 'm', 'e', '_', '_']
}

/// `key=value` for every tag whose key is not reserved, in the given order.
pub open spec fn kept_tags(tags: Seq<(String, String)>) -> Seq<Seq<char>>
    decreases tags.len(),
{
    if tags.len() == 0 {
        Seq::empty()
    } else {
        let (k, v) = tags.last();
        let rest = kept_tags(tags.drop_last());
        if k@ == reserved_key() {
            rest
        } else {
            rest.push(k@ + seq!['='] + v@)
        }
    }
}

/// The parts joined with commas between them.
pub open spec fn join_commas(parts: Seq<Seq<char>>) -> Seq<char>
    decreases parts.len(),
{
    if parts.len() == 0 {
        Seq::empty()
    } else if parts.len() == 1 {
        parts[0]
    } else {
        join_commas(parts.drop_last()) + seq![','] + parts.last()
    }
}

/// The application name, followed by the sorted tags in braces when there
/// are any.
pub open spec fn name_with_tags(name: Seq<char>, sorted: Seq<Seq<char>>) -> Seq<char> {
    if sorted.len() == 0 {
        name
    } else {
        name + seq!['{'] + join_commas(sorted) + seq!['}']
    }
}

proof fn lemma_lex_total(a: Seq<char>, b: Seq<char>)
    ensures
        lex_le(a, b) || lex_le(b, a),
    decreases a.len(),
{
    if a.len() > 0 && b.len() > 0 && (a[0] as u32) == (b[0] as u32) {
        lemma_lex_total(a.drop_first(), b.drop_first());
    }
}

proof fn lemma_lex_trans(a: Seq<char>, b: Seq<char>, c: Seq<char>)
    requires
        lex_le(a, b),
        lex_le(b, c),
    ensures
        lex_le(a, c),
    decreases a.len(),
{
    if a.len() > 0 && b.len() > 0 && c.len() > 0 && (a[0] as u32) == (b[0] as u32) && (b[0] as u32) == (c[0] as u32) {
        lemma_lex_trans(a.drop_first(), b.drop_first(), c.drop_first());
    }
}

/// Whether `a` sorts before or equal to `b`.
pub fn str_lex_le(a: &str, b: &str) -> (r: bool)
    ensures
        r == lex_le(a@, b@),
{
    let x = chars_of(a);
    let y = chars_of(b);
    let mut i: usize = 0;
    assert(x@.skip(0) =~= x@);
    assert(y@.skip(0) =~= y@);
    while i < x.len() && i < y.len()
        invariant
            x@ == a@,
            y@ == b@,
            0 <= i <= x@.len(),
            i <= y@.len(),
            lex_le(a@, b@) == lex_le(x@.skip(i as int), y@.skip(i as int)),
        decreases x@.len() - i,
    {
        let ghost xs = x@.skip(i as int);
        let ghost ys = y@.skip(i as int);
        assert(xs[0] == x@[i as int]);
        assert(ys[0] == y@[i as int]);
        if (x[i] as u32) != (y[i] as u32) {
            return (x[i] as u32) < (y[i] as u32);
        }
        assert(xs.drop_first() =~= x@.skip(i as int + 1));
        assert(ys.drop_first() =~= y@.skip(i as int + 1));
        i = i + 1;
    }
    assert(x@.skip(i as int).len() == 0 || y@.skip(i as int).len() == 0);
    i == x.len()
}

/// The application name with the tags appended: every tag but the one with
/// the reserved key `__name__` becomes `key=value`; these are sorted and
/// joined with commas inside braces after the name. Without such tags the
/// name is returned as it is.
pub fn merge_tags_with_app_name(application_name: String, tags: Vec<(String, String)>) -> (r: String)
    ensures
        exists|sorted: Seq<Seq<char>>|
            {
                &&& sorted.to_multiset() == kept_tags(tags@).to_multiset()
                &&& sorted_lex(sorted)
                &&& r@ == #[trigger] name_with_tags(application_name@, sorted)
            },
{
    let reserved = String::from_str("__name__");
    let eq_sign = "=";
    proof {
        reveal_strlit("__name__");
        reveal_strlit("=");
    }
    assert(reserved@ =~= reserved_key());
    let mut out: Vec<String> = Vec::new();
    let mut t: usize = 0;
    assert(out@.map_values(|s: String| s@) =~= Seq::<Seq<char>>::empty());
    assert(tags@.take(0) =~= Seq::<(String, String)>::empty());
    assert(kept_tags(tags@.take(0)) =~= Seq::<Seq<char>>::empty());
    while t < tags.len()
        invariant
            reserved@ == reserved_key(),
            eq_sign@ == seq!['='],
            0 <= t <= tags@.len(),
            sorted_lex(out@.map_values(|s: String| s@)),
            out@.map_values(|s: String| s@).to_multiset() == kept_tags(tags@.take(t as int)).to_multiset(),
        decreases tags@.len() - t,
    {
        let (k, v) = &tags[t];
        assert(tags@.take(t as int + 1).drop_last() =~= tags@.take(t as int));
        assert(tags@.take(t as int + 1).last() == tags@[t as int]);
        if *k != reserved {
            let mut text = k.clone();
            text.append(eq_sign);
            text.append(v.as_str());
            let ghost views = out@.map_values(|s: String| s@);
            let mut i: usize = 0;
            while i < out.len()
                invariant
                    views == out@.map_values(|s: String| s@),
                    0 <= i <= out@.len(),
                    forall|j: int| 0 <= j < i ==> lex_le(#[trigger] views[j], text@),
                ensures
                    0 <= i <= out@.len(),
                    forall|j: int| 0 <= j < i ==> lex_le(#[trigger] views[j], text@),
                    i < out@.len() ==> !lex_le(views[i as int], text@),
                decreases out@.len() - i,
            {
                if !str_lex_le(out[i].as_str(), text.as_str()) {
                    break;
                }
                i = i + 1;
            }
            let ghost tv = text@;
            out.insert(i, text);
            proof {
                let nv = out@.map_values(|s: String| s@);
                assert(nv =~= views.insert(i as int, tv));
                vstd::seq_lib::to_multiset_insert(views, i as int, tv);
                if i < views.len() {
                    lemma_lex_total(views[i as int], tv);
                }
                assert forall|a: int, b: int| 0 <= a < b < nv.len() implies lex_le(#[trigger] nv[a], #[trigger] nv[b]) by {
                    if b < i {
                        assert(nv[a] == views[a] && nv[b] == views[b]);
                    } else if b == i {
                        assert(nv[a] == views[a]);
                    } else if a == i {
                        assert(nv[b] == views[b - 1]);
                        if b - 1 > i {
                            lemma_lex_trans(tv, views[i as int], views[b - 1]);
                        }
                    } else if a < i {
                        assert(nv[a] == views[a] && nv[b] == views[b - 1]);
                    } else {
                        assert(nv[a] == views[a - 1] && nv[b] == views[b - 1]);
                    }
                }
                assert(kept_tags(tags@.take(t as int + 1)) == kept_tags(tags@.take(t as int)).push(tv));
                vstd::seq_lib::to_multiset_build(kept_tags(tags@.take(t as int)), tv);
            }
        }
        t = t + 1;
    }
    assert(tags@.take(tags@.len() as int) =~= tags@);
    let ghost sorted = out@.map_values(|s: String| s@);
    if out.len() == 0 {
        assert(name_with_tags(application_name@, sorted) == application_name@);
        return application_name;
    }
    let open_brace = "{";
    let comma = ",";
    let close_brace = "}";
    proof {
        reveal_strlit("{");
        reveal_strlit(",");
        reveal_strlit("}");
    }
    let mut r = application_name;
    r.append(open_brace);
    let ghost head = r@;
    let mut i: usize = 0;
    while i < out.len()
        invariant
            comma@ == seq![','],
            sorted == out@.map_values(|s: String| s@),
            0 <= i <= out@.len(),
            r@ == head + join_commas(sorted.take(i as int)),
        decreases out@.len() - i,
    {
        let ghost before = r@;
        assert(sorted.take(i as int + 1).drop_last() =~= sorted.take(i as int));
        assert(sorted.take(i as int + 1).last() == out@[i as int]@);
        if i > 0 {
            r.append(comma);
        }
        r.append(out[i].as_str());
        proof {
            if i == 0 {
                assert(sorted.take(1).len() == 1);
                assert(r@ =~= head + join_commas(sorted.take(1)));
            } else {
                assert(r@ =~= head + join_commas(sorted.take(i as int + 1)));
            }
        }
        i = i + 1;
    }
    assert(sorted.take(out@.len() as int) =~= sorted);
    r.append(close_brace);
    assert(r@ =~= name_with_tags(application_name@, sorted));
    r
}

} // verus!
