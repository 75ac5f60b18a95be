//! Names of plugins and checks, and the order in which they are kept:
//! lexicographic order of their characters (which, for UTF-8 text, is the
//! order of their bytes).

use vstd::prelude::*;

verus! {

/// `a` and `b` agree on their first `k` characters.
pub open spec fn agree_upto(a: Seq<char>, b: Seq<char>, k: int) -> bool {
    forall|i: int| 0 <= i < k ==> a[i] == b[i]
}

/// `k` is a witness that `a` comes strictly before `b`: both agree up to `k`,
/// and either `a` ends at `k` while `b` goes on, or both go on and `a`'s
/// character at `k` is smaller.
pub open spec fn lt_at(a: Seq<char>, b: Seq<char>, k: int) -> bool {
    &&& 0 <= k <= a.len()
    &&& k <= b.len()
    &&& agree_upto(a, b, k)
    &&& ((k == a.len() && k < b.len()) || (k < a.len() && k < b.len() && (a[k] as int) < (
    b[k] as int)))
}

/// Strict lexicographic order on names.
pub open spec fn name_lt(a: Seq<char>, b: Seq<char>) -> bool {
    exists|k: int| lt_at(a, b, k)
}

/// The outcome of comparing two names.
#[derive(PartialEq, Eq, Structural, Clone, Copy, Debug)]
pub enum NameOrder {
    Less,
    Equal,
    Greater,
}

pub open spec fn name_order(a: Seq<char>, b: Seq<char>) -> NameOrder {
    if a == b {
        NameOrder::Equal
    } else if name_lt(a, b) {
        NameOrder::Less
    } else {
        NameOrder::Greater
    }
}

/// No name comes before itself.
pub proof fn lemma_name_lt_irreflexive(a: Seq<char>)
    ensures
        !name_lt(a, a),
{
    if name_lt(a, a) {
        let k = choose|k: int| lt_at(a, a, k);
        assert(lt_at(a, a, k));
    }
}

/// Of two names, at most one comes before the other.
pub proof fn lemma_name_lt_asymmetric(a: Seq<char>, b: Seq<char>)
    ensures
        name_lt(a, b) ==> !name_lt(b, a),
{
    if name_lt(a, b) && name_lt(b, a) {
        let k1 = choose|k: int| lt_at(a, b, k);
        let k2 = choose|k: int| lt_at(b, a, k);
        if k1 < k2 {
            assert(b[k1] == a[k1]);
        } else if k2 < k1 {
            assert(a[k2] == b[k2]);
        }
    }
}

/// The order of names is transitive.
pub proof fn lemma_name_lt_transitive(a: Seq<char>, b: Seq<char>, c: Seq<char>)
    requires
        name_lt(a, b),
        name_lt(b, c),
    ensures
        name_lt(a, c),
{
    let k1 = choose|k: int| lt_at(a, b, k);
    let k2 = choose|k: int| lt_at(b, c, k);
    let k = if k1 <= k2 { k1 } else { k2 };
    assert(agree_upto(a, c, k)) by {
        assert forall|i: int| 0 <= i < k implies a[i] == c[i] by {
            assert(a[i] == b[i]);
            assert(b[i] == c[i]);
        }
    }
    if k1 < k2 {
        assert(b[k1] == c[k1]);
    } else if k2 < k1 {
        assert(a[k2] == b[k2]);
    }
    assert(lt_at(a, c, k));
}

/// The first position below `m` at which two names that do not agree up to
/// `m` differ.
proof fn first_difference(a: Seq<char>, b: Seq<char>, m: int) -> (k: int)
    requires
        0 <= m <= a.len(),
        m <= b.len(),
        !agree_upto(a, b, m),
    ensures
        0 <= k < m,
        a[k] != b[k],
        agree_upto(a, b, k),
    decreases m,
{
    if agree_upto(a, b, m - 1) {
        m - 1
    } else {
        first_difference(a, b, m - 1)
    }
}

/// Two different names are ordered one way or the other.
pub proof fn lemma_name_lt_total(a: Seq<char>, b: Seq<char>)
    requires
        a != b,
    ensures
        name_lt(a, b) || name_lt(b, a),
{
    let m = if a.len() <= b.len() { a.len() as int } else { b.len() as int };
    if agree_upto(a, b, m) {
        if a.len() == b.len() {
            assert(a =~= b);
        } else if a.len() < b.len() {
            assert(lt_at(a, b, m));
        } else {
            assert(lt_at(b, a, m));
        }
    } else {
        let k = first_difference(a, b, m);
        if (a[k] as int) < (b[k] as int) {
            assert(lt_at(a, b, k));
        } else {
            assert((a[k] as int) != (b[k] as int));
            assert(lt_at(b, a, k));
        }
    }
}

/// A name comes before every longer name that it begins.
pub proof fn lemma_prefix_comes_first(a: Seq<char>, b: Seq<char>)
    requires
        b.len() > 0,
    ensures
        name_lt(a, a + b),
        !name_lt(a + b, a),
{
    assert(lt_at(a, a + b, a.len() as int));
    lemma_name_lt_asymmetric(a, a + b);
}

/// Names that first differ at position `k` come in the order of their
/// characters there.
pub proof fn lemma_first_difference_decides(a: Seq<char>, b: Seq<char>, k: int)
    requires
        0 <= k < a.len(),
        k < b.len(),
        agree_upto(a, b, k),
        (a[k] as int) < (b[k] as int),
    ensures
        name_lt(a, b),
        !name_lt(b, a),
{
    assert(lt_at(a, b, k));
    lemma_name_lt_asymmetric(a, b);
}

/// Compares two names in the order in which the registry keeps them.
pub fn compare_names(a: &str, b: &str) -> (r: NameOrder)
    ensures
        r == name_order(a@, b@),
{
    let la = a.unicode_len();
    let lb = b.unicode_len();
    let mut i: usize = 0;
    while i < la && i < lb
        invariant
            la == a@.len(),
            lb == b@.len(),
            i <= la,
            i <= lb,
            agree_upto(a@, b@, i as int),
        decreases la - i,
    {
        let ca = a.get_char(i);
        let cb = b.get_char(i);
        if ca != cb {
            if (ca as u32) < (cb as u32) {
                proof {
                    assert(lt_at(a@, b@, i as int));
                    lemma_name_lt_asymmetric(a@, b@);
                }
                return NameOrder::Less;
            } else {
                proof {
                    assert((ca as int) != (cb as int));
                    assert(lt_at(b@, a@, i as int));
                    lemma_name_lt_asymmetric(b@, a@);
                    assert(a@[i as int] != b@[i as int]);
                }
                return NameOrder::Greater;
            }
        }
        i = i + 1;
    }
    if la == lb {
        proof {
            assert(a@ =~= b@);
        }
        NameOrder::Equal
    } else if la < lb {
        proof {
            assert(lt_at(a@, b@, i as int));
        }
        NameOrder::Less
    } else {
        proof {
            assert(lt_at(b@, a@, i as int));
            lemma_name_lt_asymmetric(b@, a@);
        }
        NameOrder::Greater
    }
}

} // verus!
