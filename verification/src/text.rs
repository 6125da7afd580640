use vstd::prelude::*;
use vstd::std_specs::iter::IteratorSpec;

verus! {

/// The three outcomes of comparing two values.
#[derive(Clone, Copy, Debug, PartialEq, Eq, Structural)]
pub enum Order {
    Less,
    Equal,
    Greater,
}

/// Lexicographic order on character sequences, characters compared by
/// their code points. This is the order of `String`'s `Ord`: UTF-8 keeps the
/// order of code points in the order of its bytes.
pub open spec fn text_lt(a: Seq<char>, b: Seq<char>) -> bool
    decreases a.len(),
{
    if a.len() == 0 {
        b.len() > 0
    } else if b.len() == 0 {
        false
    } else if a[0] != b[0] {
        a[0] < b[0]
    } else {
        text_lt(a.drop_first(), b.drop_first())
    }
}

/// How `a` compares with `b` in the text order.
pub open spec fn text_order(a: Seq<char>, b: Seq<char>) -> Order {
    if a == b {
        Order::Equal
    } else if text_lt(a, b) {
        Order::Less
    } else {
        Order::Greater
    }
}

/// No text comes before itself.
pub proof fn lemma_text_lt_irreflexive(a: Seq<char>)
    ensures
        !text_lt(a, a),
    decreases a.len(),
{
    if a.len() > 0 {
        lemma_text_lt_irreflexive(a.drop_first());
    }
}

/// Two different texts are ordered one way, and never both ways.
pub proof fn lemma_text_lt_total(a: Seq<char>, b: Seq<char>)
    ensures
        a != b ==> (text_lt(a, b) || text_lt(b, a)),
        !(text_lt(a, b) && text_lt(b, a)),
    decreases a.len(),
{
    if a.len() > 0 && b.len() > 0 && a[0] == b[0] {
        lemma_text_lt_total(a.drop_first(), b.drop_first());
        if a != b {
            assert(a =~= seq![a[0]] + a.drop_first());
            assert(b =~= seq![b[0]] + b.drop_first());
        }
    } else if a.len() == 0 && b.len() == 0 {
        assert(a =~= b);
    }
}

/// The text order is transitive.
pub proof fn lemma_text_lt_transitive(a: Seq<char>, b: Seq<char>, c: Seq<char>)
    requires
        text_lt(a, b),
        text_lt(b, c),
    ensures
        text_lt(a, c),
    decreases a.len(),
{
    if a.len() > 0 && b.len() > 0 && c.len() > 0 && a[0] == b[0] && b[0] == c[0] {
        lemma_text_lt_transitive(a.drop_first(), b.drop_first(), c.drop_first());
    }
}

/// Comparing from position `i` on decides the comparison of the whole texts
/// when the first `i` characters agree.
proof fn lemma_text_lt_skip(a: Seq<char>, b: Seq<char>, i: int)
    requires
        0 <= i < a.len(),
        i < b.len(),
        a[i] == b[i],
    ensures
        text_lt(a.skip(i), b.skip(i)) == text_lt(a.skip(i + 1), b.skip(i + 1)),
{
    assert(a.skip(i).drop_first() =~= a.skip(i + 1));
    assert(b.skip(i).drop_first() =~= b.skip(i + 1));
}

/// Compares two texts in the order of `String`'s `Ord`.
pub fn compare_text(a: &str, b: &str) -> (r: Order)
    ensures
        r == text_order(a@, b@),
{
    broadcast use vstd::string::group_string_axioms;

    let mut ia = a.chars();
    let mut ib = b.chars();
    let ghost mut i: int = 0;
    assert(a@.skip(0) =~= a@);
    assert(b@.skip(0) =~= b@);
    loop
        invariant
            0 <= i <= a@.len(),
            i <= b@.len(),
            ia.remaining() == a@.skip(i),
            ib.remaining() == b@.skip(i),
            ia.obeys_prophetic_iter_laws(),
            ib.obeys_prophetic_iter_laws(),
            a@.take(i) == b@.take(i),
            text_lt(a@, b@) == text_lt(a@.skip(i), b@.skip(i)),
            text_lt(b@, a@) == text_lt(b@.skip(i), a@.skip(i)),
        decreases a@.len() - i,
    {
        let ca = ia.next();
        let cb = ib.next();
        match (ca, cb) {
            (None, None) => {
                assert(a@ =~= a@.take(i));
                assert(b@ =~= b@.take(i));
                return Order::Equal;
            },
            (None, Some(_)) => {
                assert(a@.skip(i).len() == 0);
                assert(a@ != b@);
                return Order::Less;
            },
            (Some(_), None) => {
                assert(a@ != b@);
                assert(b@.skip(i).len() == 0);
                return Order::Greater;
            },
            (Some(x), Some(y)) => {
                assert(x == a@[i]);
                assert(y == b@[i]);
                if x != y {
                    assert(a@[i] != b@[i]);
                    assert(a@ != b@);
                    if x < y {
                        return Order::Less;
                    } else {
                        proof {
                            lemma_text_lt_total(a@.skip(i), b@.skip(i));
                        }
                        return Order::Greater;
                    }
                }
                proof {
                    lemma_text_lt_skip(a@, b@, i);
                    lemma_text_lt_skip(b@, a@, i);
                    assert(a@.take(i + 1) =~= a@.take(i).push(x));
                    assert(b@.take(i + 1) =~= b@.take(i).push(y));
                    assert(a@.skip(i).drop_first() =~= a@.skip(i + 1));
                    assert(b@.skip(i).drop_first() =~= b@.skip(i + 1));
                    i = i + 1;
                }
            },
        }
    }
}

/// Whether two texts are equal.
pub fn same_text(a: &str, b: &str) -> (r: bool)
    ensures
        r == (a@ == b@),
{
    match compare_text(a, b) {
        Order::Equal => true,
        _ => false,
    }
}

} // verus!
