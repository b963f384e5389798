//! The order of names, and the index from names to groups that merging
//! object types uses.
use vstd::prelude::*;
use vstd::string::StrSliceExecFns;
use defaultmap::DefaultHashMap;

verus! {

/// The lexicographic order of strings by code point: `a` comes at or before
/// `b`.
pub open spec fn str_le(a: Seq<char>, b: Seq<char>) -> bool
    decreases a.len(),
{
    if a.len() == 0 {
        true
    } else if b.len() == 0 {
        false
    } else if a[0] != b[0] {
        (a[0] as u32) < (b[0] as u32)
    } else {
        str_le(a.drop_first(), b.drop_first())
    }
}

/// Comparing from place `i` on decides the order of two strings that agree
/// before `i`.
pub proof fn lemma_str_le_skip(a: Seq<char>, b: Seq<char>, i: int)
    requires
        0 <= i <= a.len(),
        i <= b.len(),
        forall|j: int| 0 <= j < i ==> a[j] == b[j],
    ensures
        str_le(a, b) == str_le(a.skip(i), b.skip(i)),
    decreases i,
{
    if i > 0 {
        lemma_str_le_skip(a, b, i - 1);
        let x = a.skip(i - 1);
        let y = b.skip(i - 1);
        assert(x[0] == a[i - 1]);
        assert(y[0] == b[i - 1]);
        assert(x.drop_first() =~= a.skip(i));
        assert(y.drop_first() =~= b.skip(i));
    } else {
        assert(a.skip(0) =~= a);
        assert(b.skip(0) =~= b);
    }
}

/// Whether `a` comes at or before `b` in the order of [`str_le`].
pub fn name_le(a: &str, b: &str) -> (r: bool)
    ensures
        r == str_le(a@, b@),
{
    let n = a.unicode_len();
    let m = b.unicode_len();
    let mut i: usize = 0;
    while i < n && i < m
        invariant
            i <= n,
            i <= m,
            n == a@.len(),
            m == b@.len(),
            forall|j: int| 0 <= j < i ==> a@[j] == b@[j],
        decreases n - i,
    {
        let x = a.get_char(i);
        let y = b.get_char(i);
        if x != y {
            proof {
                lemma_str_le_skip(a@, b@, i as int);
                assert(a@.skip(i as int)[0] == x);
                assert(b@.skip(i as int)[0] == y);
            }
            return (x as u32) < (y as u32);
        }
        i += 1;
    }
    proof {
        lemma_str_le_skip(a@, b@, i as int);
        if i < n {
            assert(b@.skip(i as int).len() == 0);
            assert(a@.skip(i as int).len() > 0);
        } else {
            assert(a@.skip(i as int).len() == 0);
        }
    }
    i >= n
}

/// `defaultmap::DefaultHashMap`, declared so that it can be held and handed
/// on; what is inside a value stays hidden.
#[verifier::external_type_specification]
#[verifier::external_body]
#[verifier::reject_recursive_types(K)]
#[verifier::reject_recursive_types(V)]
pub struct ExDefaultHashMap<K: Eq + core::hash::Hash, V>(DefaultHashMap<K, V>);

/// The entries that were put into an index.
pub uninterp spec fn index_entries(m: DefaultHashMap<String, usize>) -> Map<Seq<char>, usize>;

/// The number that an index gives for a name without an entry.
pub uninterp spec fn index_default(m: DefaultHashMap<String, usize>) -> usize;

/// `DefaultHashMap::new`: a map without entries, whose default is the default
/// of the value type, which for `usize` is zero.
#[verifier::external_body]
pub(crate) fn index_new() -> (m: DefaultHashMap<String, usize>)
    ensures
        index_entries(m) =~= Map::empty(),
        index_default(m) == 0,
{
    DefaultHashMap::new()
}

/// `DefaultHashMap::get`: the value stored for the key, or the default where
/// none is stored.
#[verifier::external_body]
pub(crate) fn index_get(m: &DefaultHashMap<String, usize>, key: &String) -> (r: usize)
    ensures
        r == if index_entries(*m).contains_key(key@) {
            index_entries(*m)[key@]
        } else {
            index_default(*m)
        },
{
    *m.get::<String, &String>(key)
}

/// `DefaultHashMap::insert`: stores the value for the key, in place of what
/// was stored for it, and leaves the default as it is.
#[verifier::external_body]
pub(crate) fn index_insert(m: &mut DefaultHashMap<String, usize>, key: String, value: usize)
    ensures
        index_entries(*final(m)) == index_entries(*old(m)).insert(key@, value),
        index_default(*final(m)) == index_default(*old(m)),
{
    m.insert(key, value);
}

} // verus!
