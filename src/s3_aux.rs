//! Small pieces of the store's housekeeping: choosing buckets by name
//! prefix, and naming the source of a copy.
use vstd::prelude::*;
use vstd::utf8::encode_utf8;

verus! {

/// `name` begins with `prefix`, compared as UTF-8 bytes.
pub open spec fn has_prefix(name: Seq<char>, prefix: Seq<char>) -> bool {
    let n = encode_utf8(name);
    let p = encode_utf8(prefix);
    p.len() <= n.len() && n.subrange(0, p.len() as int) == p
}

/// The names in `names` that begin with `prefix`, in their order.
pub open spec fn with_prefix(names: Seq<String>, prefix: Seq<char>) -> Seq<String>
    decreases names.len(),
{
    if names.len() == 0 {
        Seq::empty()
    } else {
        let rest = with_prefix(names.drop_last(), prefix);
        if has_prefix(names.last()@, prefix) {
            rest.push(names.last())
        } else {
            rest
        }
    }
}

/// Whether `name` begins with `prefix`.
pub fn starts_with_prefix(name: &str, prefix: &str) -> (r: bool)
    ensures
        r == has_prefix(name@, prefix@),
{
    let n = name.as_bytes();
    let p = prefix.as_bytes();
    if p.len() > n.len() {
        return false;
    }
    let mut i: usize = 0;
    while i < p.len()
        invariant
            i <= p@.len(),
            p@.len() <= n@.len(),
            n@ == encode_utf8(name@),
            p@ == encode_utf8(prefix@),
            forall|k: int| 0 <= k < i ==> n@[k] == p@[k],
        decreases p.len() - i,
    {
        if n[i] != p[i] {
            assert(n@.subrange(0, p@.len() as int)[i as int] != p@[i as int]);
            return false;
        }
        i = i + 1;
    }
    assert(n@.subrange(0, p@.len() as int) =~= p@);
    true
}

/// The bucket names that begin with `prefix`: the buckets that a cleanup
/// by prefix deletes.
pub fn buckets_with_prefix(names: &Vec<String>, prefix: &str) -> (r: Vec<String>)
    ensures
        r@ == with_prefix(names@, prefix@),
{
    let mut r: Vec<String> = Vec::new();
    let mut i: usize = 0;
    assert(names@.subrange(0, 0) =~= Seq::<String>::empty());
    while i < names.len()
        invariant
            i <= names@.len(),
            r@ == with_prefix(names@.subrange(0, i as int), prefix@),
        decreases names.len() - i,
    {
        assert(names@.subrange(0, i + 1).drop_last() =~= names@.subrange(0, i as int));
        if starts_with_prefix(names[i].as_str(), prefix) {
            r.push(names[i].clone());
        }
        i = i + 1;
    }
    assert(names@.subrange(0, names@.len() as int) =~= names@);
    r
}

/// The copy source of `key` in `bucket`, written `bucket/key`.
pub fn copy_source(bucket: &str, key: &str) -> (r: String)
    ensures
        r@ == bucket@ + seq!['/'] + key@,
{
    proof {
        reveal_strlit("/");
    }
    bucket.to_owned().concat("/").concat(key)
}

} // verus!
