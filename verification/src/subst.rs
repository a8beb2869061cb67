//! Literal token substitution: every non-overlapping occurrence of a
//! placeholder's token is replaced by its supplied value, scanning left to
//! right; the store's entries are applied in order.

use vstd::prelude::*;
use vstd::string::*;

use crate::data::{PlaceHolderV, PlaceholderValues};

verus! {

/// `target` stands literally at position `i` of `content`.
pub open spec fn occurs_at(content: Seq<char>, target: Seq<char>, i: int) -> bool {
    0 <= i && i + target.len() <= content.len() && content.subrange(i, i + target.len()) == target
}

/// `target` stands literally somewhere in `content`.
pub open spec fn has_occurrence(content: Seq<char>, target: Seq<char>) -> bool {
    exists|i: int| occurs_at(content, target, i)
}

/// The result of replacing, left to right and without overlap, every literal
/// occurrence of `target` in `content` by `value`. An empty `target` is
/// considered to occur nowhere, so it changes nothing.
pub open spec fn replace_all_spec(content: Seq<char>, target: Seq<char>, value: Seq<char>) -> Seq<char>
    decreases content.len(),
{
    if target.len() == 0 || content.len() == 0 {
        content
    } else if occurs_at(content, target, 0) {
        value + replace_all_spec(content.skip(target.len() as int), target, value)
    } else {
        content.take(1) + replace_all_spec(content.skip(1), target, value)
    }
}

/// The result of applying the store's entries to `content` in order: each
/// entry replaces every occurrence of its placeholder's token by its value,
/// and later entries see the text the earlier ones produced.
pub open spec fn substitute_spec(content: Seq<char>, entries: Seq<(PlaceHolderV, Seq<char>)>) -> Seq<char>
    decreases entries.len(),
{
    if entries.len() == 0 {
        content
    } else {
        substitute_spec(
            replace_all_spec(content, entries[0].0.target, entries[0].1),
            entries.drop_first(),
        )
    }
}

/// Whether some entry's application changed the text it was applied to.
pub open spec fn substitute_edits(content: Seq<char>, entries: Seq<(PlaceHolderV, Seq<char>)>) -> bool
    decreases entries.len(),
{
    if entries.len() == 0 {
        false
    } else {
        let stepped = replace_all_spec(content, entries[0].0.target, entries[0].1);
        stepped != content || substitute_edits(stepped, entries.drop_first())
    }
}

/// Is `target` equal to the `t` characters of `content` starting at `i`?
fn matches_at(content: &str, target: &str, i: usize, n: usize, t: usize) -> (r: bool)
    requires
        n == content@.len(),
        t == target@.len(),
        1 <= t,
        i + t <= n,
    ensures
        r == (content@.subrange(i as int, i as int + t as int) == target@),
{
    let mut j: usize = 0;
    while j < t
        invariant
            j <= t,
            n == content@.len(),
            t == target@.len(),
            i + t <= n,
            forall|k: int| 0 <= k < j ==> content@[i + k] == target@[k],
        decreases t - j,
    {
        if content.get_char(i + j) != target.get_char(j) {
            proof {
                assert(content@.subrange(i as int, i as int + t as int)[j as int] != target@[j as int]);
            }
            return false;
        }
        j = j + 1;
    }
    proof {
        assert(content@.subrange(i as int, i as int + t as int) =~= target@);
    }
    true
}

/// Replaces, left to right and without overlap, every literal occurrence of
/// `target` in `content` by `value`. Plain substring replacement: the
/// placeholder's own pattern plays no part here.
pub fn replace_all(content: &str, target: &str, value: &str) -> (out: String)
    ensures
        out@ == replace_all_spec(content@, target@, value@),
{
    let n = content.unicode_len();
    let t = target.unicode_len();
    let mut out = String::new();
    let mut i: usize = 0;
    proof {
        assert(content@.skip(0) =~= content@);
        assert(out@ + content@ =~= content@);
    }
    while i < n
        invariant
            i <= n,
            n == content@.len(),
            t == target@.len(),
            replace_all_spec(content@, target@, value@) == out@ + replace_all_spec(
                content@.skip(i as int),
                target@,
                value@,
            ),
        decreases n - i,
    {
        let ghost rest = content@.skip(i as int);
        let ghost out0 = out@;
        if t >= 1 && t <= n - i && matches_at(content, target, i, n, t) {
            out.append(value);
            proof {
                assert(rest.subrange(0, t as int) =~= content@.subrange(
                    i as int,
                    i as int + t as int,
                ));
                assert(occurs_at(rest, target@, 0));
                assert(replace_all_spec(rest, target@, value@) == value@ + replace_all_spec(
                    rest.skip(t as int),
                    target@,
                    value@,
                ));
                assert(rest.skip(t as int) =~= content@.skip(i as int + t as int));
                assert(out@ + replace_all_spec(content@.skip(i as int + t as int), target@, value@)
                    =~= out0 + replace_all_spec(rest, target@, value@));
            }
            i = i + t;
        } else {
            let piece = content.substring_char(i, i + 1);
            out.append(piece);
            proof {
                assert(piece@ =~= rest.take(1));
                if t == 0 {
                    assert(replace_all_spec(rest, target@, value@) == rest);
                    assert(replace_all_spec(rest.skip(1), target@, value@) == rest.skip(1));
                } else {
                    if i + t <= n {
                        assert(!(content@.subrange(i as int, i as int + t as int) == target@));
                        assert(rest.subrange(0, t as int) =~= content@.subrange(
                            i as int,
                            i as int + t as int,
                        ));
                    }
                    assert(!occurs_at(rest, target@, 0));
                    assert(replace_all_spec(rest, target@, value@) == rest.take(1)
                        + replace_all_spec(rest.skip(1), target@, value@));
                }
                assert(rest.skip(1) =~= content@.skip(i as int + 1));
                assert(out@ + replace_all_spec(content@.skip(i as int + 1), target@, value@)
                    =~= out0 + replace_all_spec(rest, target@, value@));
            }
            i = i + 1;
        }
    }
    proof {
        assert(content@.skip(n as int) =~= Seq::<char>::empty());
        assert(out@ + Seq::<char>::empty() =~= out@);
    }
    out
}

/// Applies every entry of the store to `content`, in store order, and reports
/// whether any application changed the text. A file whose returned flag is
/// false needs no rewriting on disk.
pub fn substitute(content: &str, values: &PlaceholderValues) -> (r: (String, bool))
    ensures
        r.0@ == substitute_spec(content@, values@),
        r.1 == substitute_edits(content@, values@),
{
    let mut cur: String = content.to_owned();
    let mut edited = false;
    let mut k: usize = 0;
    proof {
        assert(values@.skip(0) =~= values@);
    }
    while k < values.entries.len()
        invariant
            k <= values.entries.len(),
            values@.len() == values.entries@.len(),
            substitute_spec(content@, values@) == substitute_spec(cur@, values@.skip(k as int)),
            substitute_edits(content@, values@) == (edited || substitute_edits(
                cur@,
                values@.skip(k as int),
            )),
        decreases values.entries.len() - k,
    {
        let ghost rest = values@.skip(k as int);
        let ghost cur0 = cur@;
        let entry = &values.entries[k];
        let replaced = replace_all(cur.as_str(), entry.0.target.as_str(), entry.1.as_str());
        if !replaced.eq(&cur) {
            edited = true;
        }
        cur = replaced;
        k = k + 1;
        proof {
            assert(rest[0] == values@[k - 1]);
            assert(rest.drop_first() =~= values@.skip(k as int));
            assert(cur@ == replace_all_spec(cur0, rest[0].0.target, rest[0].1));
        }
    }
    proof {
        assert(values@.skip(values@.len() as int) =~= Seq::<(PlaceHolderV, Seq<char>)>::empty());
    }
    (cur, edited)
}

/// No occurrence, no change: replacing a token that does not occur in a text
/// returns the text itself.
pub proof fn lemma_replace_all_no_occurrence(content: Seq<char>, target: Seq<char>, value: Seq<char>)
    requires
        !has_occurrence(content, target),
    ensures
        replace_all_spec(content, target, value) == content,
    decreases content.len(),
{
    if target.len() == 0 || content.len() == 0 {
    } else {
        assert(!occurs_at(content, target, 0));
        assert forall|i: int| !occurs_at(content.skip(1), target, i) by {
            if occurs_at(content.skip(1), target, i) {
                assert(content.subrange(i + 1, i + 1 + target.len()) =~= content.skip(1).subrange(
                    i,
                    i + target.len(),
                ));
                assert(occurs_at(content, target, i + 1));
            }
        }
        lemma_replace_all_no_occurrence(content.skip(1), target, value);
        assert(replace_all_spec(content, target, value) =~= content.take(1) + content.skip(1));
        assert(content.take(1) + content.skip(1) =~= content);
    }
}

/// A text in which no supplied entry's token occurs comes out of substitution
/// unchanged, and substitution reports no edit: such a file is never
/// rewritten, and instantiation round-trips it byte for byte.
pub proof fn lemma_substitute_untouched(content: Seq<char>, entries: Seq<(PlaceHolderV, Seq<char>)>)
    requires
        forall|k: int| 0 <= k < entries.len() ==> (#[trigger] entries[k].0.target).len() == 0
            || !has_occurrence(content, entries[k].0.target),
    ensures
        substitute_spec(content, entries) == content,
        !substitute_edits(content, entries),
    decreases entries.len(),
{
    if entries.len() == 0 {
    } else {
        let t = entries[0].0.target;
        if t.len() == 0 {
        } else {
            lemma_replace_all_no_occurrence(content, t, entries[0].1);
        }
        assert(replace_all_spec(content, t, entries[0].1) == content);
        assert forall|k: int| 0 <= k < entries.drop_first().len() implies (#[trigger] entries.drop_first()[k].0.target).len()
            == 0 || !has_occurrence(content, entries.drop_first()[k].0.target) by {
            assert(entries.drop_first()[k] == entries[k + 1]);
        }
        lemma_substitute_untouched(content, entries.drop_first());
    }
}

/// No occurrence of `target` in `content` crosses the boundary `p`: every
/// occurrence lies wholly before it or wholly at or after it.
pub open spec fn no_occurrence_crossing(content: Seq<char>, target: Seq<char>, p: int) -> bool {
    forall|a: int| #[trigger] occurs_at(content, target, a) ==> a + target.len() <= p || p <= a
}

/// Replacement splits at any boundary that no occurrence of the token
/// crosses: the two halves can be rewritten independently.
pub proof fn lemma_replace_all_split(content: Seq<char>, target: Seq<char>, value: Seq<char>, p: int)
    requires
        0 <= p <= content.len(),
        no_occurrence_crossing(content, target, p),
    ensures
        replace_all_spec(content, target, value) == replace_all_spec(content.take(p), target, value)
            + replace_all_spec(content.skip(p), target, value),
    decreases content.len(),
{
    let c = content;
    let t = target;
    let v = value;
    if t.len() == 0 {
        assert(replace_all_spec(c, t, v) == c);
        assert(replace_all_spec(c.take(p), t, v) == c.take(p));
        assert(replace_all_spec(c.skip(p), t, v) == c.skip(p));
        assert(c.take(p) + c.skip(p) =~= c);
    } else if p == 0 {
        assert(c.take(0) =~= Seq::<char>::empty());
        assert(replace_all_spec(c.take(0), t, v) == c.take(0));
        assert(c.skip(0) =~= c);
        assert(c.take(0) + replace_all_spec(c, t, v) =~= replace_all_spec(c, t, v));
    } else if occurs_at(c, t, 0) {
        assert(t.len() <= p || p <= 0);
        let rest = c.skip(t.len() as int);
        assert forall|a: int| #[trigger] occurs_at(rest, t, a) implies a + t.len() <= p - t.len()
            || p - t.len() <= a by {
            assert(c.subrange(a + t.len(), a + t.len() + t.len()) =~= rest.subrange(
                a,
                a + t.len(),
            ));
            assert(occurs_at(c, t, a + t.len()));
        }
        lemma_replace_all_split(rest, t, v, p - t.len());
        assert(c.take(p).subrange(0, t.len() as int) =~= c.subrange(0, t.len() as int));
        assert(occurs_at(c.take(p), t, 0));
        assert(replace_all_spec(c, t, v) == v + replace_all_spec(rest, t, v));
        assert(replace_all_spec(c.take(p), t, v) == v + replace_all_spec(
            c.take(p).skip(t.len() as int),
            t,
            v,
        ));
        assert(c.take(p).skip(t.len() as int) =~= rest.take(p - t.len()));
        assert(rest.skip(p - t.len()) =~= c.skip(p));
        assert(v + (replace_all_spec(rest.take(p - t.len()), t, v) + replace_all_spec(
            c.skip(p),
            t,
            v,
        )) =~= (v + replace_all_spec(rest.take(p - t.len()), t, v)) + replace_all_spec(
            c.skip(p),
            t,
            v,
        ));
    } else {
        let rest = c.skip(1);
        assert forall|a: int| #[trigger] occurs_at(rest, t, a) implies a + t.len() <= p - 1 || p - 1
            <= a by {
            assert(c.subrange(a + 1, a + 1 + t.len()) =~= rest.subrange(a, a + t.len()));
            assert(occurs_at(c, t, a + 1));
        }
        lemma_replace_all_split(rest, t, v, p - 1);
        if t.len() <= p && occurs_at(c.take(p), t, 0) {
            assert(c.subrange(0, t.len() as int) =~= c.take(p).subrange(0, t.len() as int));
            assert(occurs_at(c, t, 0));
        }
        assert(!occurs_at(c.take(p), t, 0));
        assert(replace_all_spec(c, t, v) == c.take(1) + replace_all_spec(rest, t, v));
        assert(replace_all_spec(c.take(p), t, v) == c.take(p).take(1) + replace_all_spec(
            c.take(p).skip(1),
            t,
            v,
        ));
        assert(c.take(p).take(1) =~= c.take(1));
        assert(c.take(p).skip(1) =~= rest.take(p - 1));
        assert(rest.skip(p - 1) =~= c.skip(p));
        assert(c.take(1) + (replace_all_spec(rest.take(p - 1), t, v) + replace_all_spec(
            c.skip(p),
            t,
            v,
        )) =~= (c.take(1) + replace_all_spec(rest.take(p - 1), t, v)) + replace_all_spec(
            c.skip(p),
            t,
            v,
        ));
    }
}

/// A token untouched by the replacement survives it: an occurrence of
/// `token` that no occurrence of the replaced `target` touches is still
/// there, literally, after every occurrence of `target` is replaced — right
/// after the rewritten text to its left.
pub proof fn lemma_replace_all_preserves_token(
    content: Seq<char>,
    target: Seq<char>,
    value: Seq<char>,
    token: Seq<char>,
    i: int,
)
    requires
        token.len() > 0,
        occurs_at(content, token, i),
        forall|a: int| #[trigger] occurs_at(content, target, a) ==> a + target.len() <= i || i
            + token.len() <= a,
    ensures
        occurs_at(
            replace_all_spec(content, target, value),
            token,
            replace_all_spec(content.take(i), target, value).len() as int,
        ),
        has_occurrence(replace_all_spec(content, target, value), token),
{
    let c = content;
    let t = target;
    let v = value;
    if t.len() == 0 {
        assert(replace_all_spec(c, t, v) == c);
        assert(replace_all_spec(c.take(i), t, v) == c.take(i));
        assert(c.take(i).len() == i);
    } else {
        assert(no_occurrence_crossing(c, t, i));
        lemma_replace_all_split(c, t, v, i);
        let right = c.skip(i);
        assert forall|a: int| #[trigger] occurs_at(right, t, a) implies a + t.len() <= token.len()
            || token.len() <= a by {
            assert(c.subrange(i + a, i + a + t.len()) =~= right.subrange(a, a + t.len()));
            assert(occurs_at(c, t, i + a));
        }
        lemma_replace_all_split(right, t, v, token.len() as int);
        assert(right.take(token.len() as int) =~= c.subrange(i, i + token.len()));
        assert(right.take(token.len() as int) == token);
        assert forall|a: int| !occurs_at(token, t, a) by {
            if occurs_at(token, t, a) {
                assert(c.subrange(i + a, i + a + t.len()) =~= token.subrange(a, a + t.len()));
                assert(occurs_at(c, t, i + a));
            }
        }
        lemma_replace_all_no_occurrence(token, t, v);
        let left = replace_all_spec(c.take(i), t, v);
        let tail = replace_all_spec(right.skip(token.len() as int), t, v);
        assert(replace_all_spec(right, t, v) == token + tail);
        assert(replace_all_spec(c, t, v) == left + (token + tail));
        assert((left + (token + tail)).subrange(
            left.len() as int,
            left.len() as int + token.len() as int,
        ) =~= token);
        assert(occurs_at(left + (token + tail), token, left.len() as int));
    }
}

/// Optional placeholders with no supplied value are skipped: with one
/// supplied entry, the token of an unsupplied placeholder remains literally
/// in the output wherever no occurrence of the supplied entry's token
/// touches it.
pub proof fn lemma_substitute_preserves_token(
    content: Seq<char>,
    entries: Seq<(PlaceHolderV, Seq<char>)>,
    token: Seq<char>,
    i: int,
)
    requires
        entries.len() == 1,
        token.len() > 0,
        occurs_at(content, token, i),
        forall|a: int| #[trigger] occurs_at(content, entries[0].0.target, a) ==> a
            + entries[0].0.target.len() <= i || i + token.len() <= a,
    ensures
        has_occurrence(substitute_spec(content, entries), token),
{
    lemma_replace_all_preserves_token(content, entries[0].0.target, entries[0].1, token, i);
    let stepped = replace_all_spec(content, entries[0].0.target, entries[0].1);
    assert(entries.drop_first().len() == 0);
    assert(substitute_spec(stepped, entries.drop_first()) == stepped);
    assert(substitute_spec(content, entries) == stepped);
}

} // verus!
