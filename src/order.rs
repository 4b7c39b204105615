use vstd::prelude::*;

verus! {

/// Lexicographic order on character sequences, by code point: `a` comes before
/// `b` when, after a common prefix of length `k`, either `a` ends and `b` goes
/// on, or `a`'s next character is the smaller.
pub open spec fn lex_lt(a: Seq<char>, b: Seq<char>) -> bool {
    exists|k: int|
        0 <= k <= a.len() && k <= b.len() && a.take(k) == b.take(k) && ((k == a.len() && k
            < b.len()) || (k < a.len() && k < b.len() && (a[k] as u32) < (b[k] as u32)))
}

#[derive(Clone, Copy, Debug, PartialEq, Eq, Structural)]
pub enum Ordering {
    Less,
    Equal,
    Greater,
}

/// Compares two strings lexicographically by code point.
pub fn compare_str(a: &str, b: &str) -> (r: Ordering)
    ensures
        r == Ordering::Less ==> lex_lt(a@, b@),
        r == Ordering::Greater ==> lex_lt(b@, a@),
        r == Ordering::Equal <==> a@ == b@,
{
    let na = a.unicode_len();
    let nb = b.unicode_len();
    let mut i: usize = 0;
    while i < na && i < nb
        invariant
            na == a@.len(),
            nb == b@.len(),
            0 <= i <= na,
            i <= nb,
            a@.take(i as int) == b@.take(i as int),
        decreases na - i,
    {
        let ca = a.get_char(i);
        let cb = b.get_char(i);
        if (ca as u32) < (cb as u32) {
            assert(lex_lt(a@, b@)) by {
                let k = i as int;
                assert(0 <= k <= a@.len() && k <= b@.len() && a@.take(k) == b@.take(k));
            }
            return Ordering::Less;
        } else if (cb as u32) < (ca as u32) {
            assert(lex_lt(b@, a@)) by {
                let k = i as int;
                assert(0 <= k <= b@.len() && k <= a@.len() && b@.take(k) == a@.take(k));
            }
            return Ordering::Greater;
        }
        assert(ca == cb);
        assert(a@.take(i + 1) == a@.take(i as int).push(a@[i as int]));
        assert(b@.take(i + 1) == b@.take(i as int).push(b@[i as int]));
        i = i + 1;
    }
    if na < nb {
        assert(a@.take(i as int) == a@);
        assert(lex_lt(a@, b@)) by {
            let k = i as int;
            assert(0 <= k <= a@.len() && k <= b@.len() && a@.take(k) == b@.take(k));
        }
        Ordering::Less
    } else if nb < na {
        assert(b@.take(i as int) == b@);
        assert(lex_lt(b@, a@)) by {
            let k = i as int;
            assert(0 <= k <= b@.len() && k <= a@.len() && b@.take(k) == a@.take(k));
        }
        Ordering::Greater
    } else {
        assert(a@ == a@.take(i as int));
        assert(b@ == b@.take(i as int));
        assert(!lex_lt(a@, b@) && !lex_lt(b@, a@)) by {
            if lex_lt(a@, b@) {
                let k = choose|k: int|
                    0 <= k <= a@.len() && k <= b@.len() && a@.take(k) == b@.take(k) && ((k
                        == a@.len() && k < b@.len()) || (k < a@.len() && k < b@.len() && (
                    a@[k] as u32) < (b@[k] as u32)));
                assert(a@[k] == b@[k]);
            }
            if lex_lt(b@, a@) {
                let k = choose|k: int|
                    0 <= k <= b@.len() && k <= a@.len() && b@.take(k) == a@.take(k) && ((k
                        == b@.len() && k < a@.len()) || (k < b@.len() && k < a@.len() && (
                    b@[k] as u32) < (a@[k] as u32)));
                assert(a@[k] == b@[k]);
            }
        }
        Ordering::Equal
    }
}

/// No string comes before itself.
pub proof fn lemma_lex_lt_irreflexive(a: Seq<char>)
    ensures
        !lex_lt(a, a),
{
}

/// The order is transitive.
pub proof fn lemma_lex_lt_transitive(a: Seq<char>, b: Seq<char>, c: Seq<char>)
    requires
        lex_lt(a, b),
        lex_lt(b, c),
    ensures
        lex_lt(a, c),
{
    let k1 = choose|k: int|
        0 <= k <= a.len() && k <= b.len() && a.take(k) == b.take(k) && ((k == a.len() && k < b.len()) || (k
            < a.len() && k < b.len() && (a[k] as u32) < (b[k] as u32)));
    let k2 = choose|k: int|
        0 <= k <= b.len() && k <= c.len() && b.take(k) == c.take(k) && ((k == b.len() && k < c.len()) || (k
            < b.len() && k < c.len() && (b[k] as u32) < (c[k] as u32)));
    if k1 < k2 {
        assert(c.take(k1) =~= b.take(k2).take(k1));
        assert(b.take(k1) =~= b.take(k2).take(k1));
        if k1 < a.len() {
            assert(b.take(k2)[k1] == b[k1] && c.take(k2)[k1] == c[k1]);
        }
        assert(0 <= k1 <= a.len() && k1 <= c.len() && a.take(k1) == c.take(k1));
    } else if k2 < k1 {
        assert(a.take(k2) =~= a.take(k1).take(k2));
        assert(b.take(k2) =~= b.take(k1).take(k2));
        assert(a.take(k1)[k2] == a[k2] && b.take(k1)[k2] == b[k2]);
        assert(0 <= k2 <= a.len() && k2 <= c.len() && a.take(k2) == c.take(k2));
    } else {
        assert(0 <= k1 <= a.len() && k1 <= c.len() && a.take(k1) == c.take(k1));
    }
}

} // verus!
