use vstd::prelude::*;
use vstd::std_specs::iter::IteratorSpec;

verus! {

/// Lexicographic order on texts, by code point; the order of Rust's `<` on
/// `str`.
pub open spec fn text_less(a: Seq<char>, b: Seq<char>) -> bool
    decreases a.len(),
{
    if a.len() == 0 {
        b.len() > 0
    } else if b.len() == 0 {
        false
    } else if a[0] != b[0] {
        (a[0] as u32) < (b[0] as u32)
    } else {
        text_less(a.drop_first(), b.drop_first())
    }
}

/// A grouping key of the table: snapshot, then language.
pub type KeyView = (Seq<char>, Seq<char>);

/// Keys in lexicographic order: by snapshot, then by language.
pub open spec fn key_less(a: KeyView, b: KeyView) -> bool {
    text_less(a.0, b.0) || (a.0 == b.0 && text_less(a.1, b.1))
}

pub proof fn lemma_text_less_irreflexive(a: Seq<char>)
    ensures
        !text_less(a, a),
    decreases a.len(),
{
    if a.len() > 0 {
        lemma_text_less_irreflexive(a.drop_first());
    }
}

pub proof fn lemma_text_less_transitive(a: Seq<char>, b: Seq<char>, c: Seq<char>)
    requires
        text_less(a, b),
        text_less(b, c),
    ensures
        text_less(a, c),
    decreases a.len(),
{
    if a.len() > 0 && b.len() > 0 && c.len() > 0 && a[0] == b[0] && b[0] == c[0] {
        lemma_text_less_transitive(a.drop_first(), b.drop_first(), c.drop_first());
    }
}

pub proof fn lemma_text_less_total(a: Seq<char>, b: Seq<char>)
    requires
        a != b,
    ensures
        text_less(a, b) || text_less(b, a),
    decreases a.len(),
{
    if a.len() == 0 && b.len() == 0 {
        assert(a =~= b);
    } else if a.len() > 0 && b.len() > 0 && a[0] == b[0] {
        if a.drop_first() == b.drop_first() {
            assert(a =~= seq![a[0]] + a.drop_first());
            assert(b =~= seq![b[0]] + b.drop_first());
        }
        lemma_text_less_total(a.drop_first(), b.drop_first());
    } else if a.len() > 0 && b.len() > 0 {
        let x = a[0] as u32;
        let y = b[0] as u32;
        vstd::utf8::char_u32_cast(a[0], x);
        vstd::utf8::char_u32_cast(b[0], y);
        assert(x != y);
    }
}

pub proof fn lemma_key_less_irreflexive(a: KeyView)
    ensures
        !key_less(a, a),
{
    lemma_text_less_irreflexive(a.0);
    lemma_text_less_irreflexive(a.1);
}

pub proof fn lemma_key_less_transitive(a: KeyView, b: KeyView, c: KeyView)
    requires
        key_less(a, b),
        key_less(b, c),
    ensures
        key_less(a, c),
{
    if text_less(a.0, b.0) && text_less(b.0, c.0) {
        lemma_text_less_transitive(a.0, b.0, c.0);
    } else if a.0 == b.0 && b.0 == c.0 {
        lemma_text_less_transitive(a.1, b.1, c.1);
    }
}

pub proof fn lemma_key_less_total(a: KeyView, b: KeyView)
    requires
        a != b,
    ensures
        key_less(a, b) || key_less(b, a),
{
    if a.0 != b.0 {
        lemma_text_less_total(a.0, b.0);
    } else {
        lemma_text_less_total(a.1, b.1);
    }
}

/// Whether `a` comes before `b` in lexicographic order.
pub fn str_less(a: &str, b: &str) -> (r: bool)
    ensures
        r == text_less(a@, b@),
{
    broadcast use vstd::string::group_string_axioms;

    let mut xs = a.chars();
    let mut ys = b.chars();
    let ghost mut i: int = 0;
    loop
        invariant
            xs.obeys_prophetic_iter_laws(),
            ys.obeys_prophetic_iter_laws(),
            0 <= i <= a@.len(),
            i <= b@.len(),
            xs.remaining() == a@.subrange(i, a@.len() as int),
            ys.remaining() == b@.subrange(i, b@.len() as int),
            text_less(a@, b@) == text_less(xs.remaining(), ys.remaining()),
        decreases a@.len() - i,
    {
        let ghost rx = xs.remaining();
        let ghost ry = ys.remaining();
        let x = xs.next();
        let y = ys.next();
        match (x, y) {
            (None, None) => {
                return false;
            },
            (None, Some(_)) => {
                return true;
            },
            (Some(_), None) => {
                return false;
            },
            (Some(cx), Some(cy)) => {
                if cx != cy {
                    return (cx as u32) < (cy as u32);
                }
                proof {
                    assert(xs.remaining() =~= a@.subrange(i + 1, a@.len() as int));
                    assert(ys.remaining() =~= b@.subrange(i + 1, b@.len() as int));
                    i = i + 1;
                }
            },
        }
    }
}

} // verus!
