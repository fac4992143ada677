//! Byte-string helpers shared by the contracts: comparison, copying,
//! concatenation, ASCII literals and decimal rendering of integers.

use vstd::prelude::*;

verus! {

/// The bytes of an ASCII character sequence, one byte per character.
pub open spec fn ascii(s: Seq<char>) -> Seq<u8> {
    Seq::new(s.len(), |i: int| s[i] as u8)
}

/// The bytes of an ASCII string slice, as an owned vector.
pub fn ascii_vec(s: &str) -> (r: Vec<u8>)
    requires
        s.is_ascii(),
    ensures
        r@ == ascii(s@),
{
    proof {
        vstd::string::is_ascii_spec_bytes(s);
    }
    let b = s.as_bytes();
    let mut r: Vec<u8> = Vec::new();
    let n = b.len();
    let mut i: usize = 0;
    while i < n
        invariant
            n == b@.len(),
            b@ == ascii(s@),
            i <= n,
            r@ == b@.subrange(0, i as int),
        decreases n - i,
    {
        r.push(b[i]);
        i = i + 1;
        assert(r@ =~= b@.subrange(0, i as int));
    }
    assert(r@ =~= b@);
    r
}

/// Whether two byte strings hold the same bytes.
pub fn bytes_eq(a: &Vec<u8>, b: &Vec<u8>) -> (r: bool)
    ensures
        r == (a@ == b@),
{
    if a.len() != b.len() {
        return false;
    }
    let n = a.len();
    let mut i: usize = 0;
    while i < n
        invariant
            n == a@.len(),
            n == b@.len(),
            i <= n,
            forall|j: int| 0 <= j < i ==> a@[j] == b@[j],
        decreases n - i,
    {
        if a[i] != b[i] {
            return false;
        }
        i = i + 1;
    }
    assert(a@ =~= b@);
    true
}

/// A fresh copy of a byte string.
pub fn copy_bytes(a: &Vec<u8>) -> (r: Vec<u8>)
    ensures
        r@ == a@,
{
    let r = a.clone();
    assert(r@ =~= a@);
    r
}

/// The concatenation of two byte strings.
pub fn concat(a: &Vec<u8>, b: &Vec<u8>) -> (r: Vec<u8>)
    ensures
        r@ == a@ + b@,
{
    let mut r = copy_bytes(a);
    let n = b.len();
    let mut i: usize = 0;
    while i < n
        invariant
            n == b@.len(),
            i <= n,
            r@ == a@ + b@.subrange(0, i as int),
        decreases n - i,
    {
        r.push(b[i]);
        i = i + 1;
        assert(r@ =~= a@ + b@.subrange(0, i as int));
    }
    assert(b@.subrange(0, n as int) =~= b@);
    r
}

/// The contents of a list of byte strings.
pub open spec fn byte_views(v: Seq<Vec<u8>>) -> Seq<Seq<u8>> {
    v.map_values(|b: Vec<u8>| b@)
}

/// A fresh copy of a list of byte strings.
pub fn copy_byte_list(v: &Vec<Vec<u8>>) -> (r: Vec<Vec<u8>>)
    ensures
        byte_views(r@) == byte_views(v@),
{
    let mut r: Vec<Vec<u8>> = Vec::new();
    let n = v.len();
    let mut i: usize = 0;
    while i < n
        invariant
            n == v@.len(),
            i <= n,
            byte_views(r@) == byte_views(v@).subrange(0, i as int),
        decreases n - i,
    {
        let b = copy_bytes(&v[i]);
        let ghost before = r@;
        r.push(b);
        assert(r@ == before.push(b));
        assert(byte_views(r@) =~= byte_views(before).push(v@[i as int]@));
        i = i + 1;
        assert(byte_views(r@) =~= byte_views(v@).subrange(0, i as int));
    }
    assert(byte_views(v@).subrange(0, n as int) =~= byte_views(v@));
    r
}

/// Whether `list` holds a byte string equal to `item`.
pub fn list_contains(list: &Vec<Vec<u8>>, item: &Vec<u8>) -> (r: bool)
    ensures
        r == byte_views(list@).contains(item@),
{
    let n = list.len();
    let mut i: usize = 0;
    while i < n
        invariant
            n == list@.len(),
            i <= n,
            forall|j: int| 0 <= j < i ==> byte_views(list@)[j] != item@,
        decreases n - i,
    {
        if bytes_eq(&list[i], item) {
            assert(byte_views(list@)[i as int] == item@);
            return true;
        }
        i = i + 1;
    }
    false
}

/// Whether no two byte strings of `list` are equal.
pub fn no_duplicate_bytes(list: &Vec<Vec<u8>>) -> (r: bool)
    ensures
        r == byte_views(list@).no_duplicates(),
{
    let ghost v = byte_views(list@);
    let n = list.len();
    let mut i: usize = 0;
    while i < n
        invariant
            v == byte_views(list@),
            n == list@.len(),
            i <= n,
            forall|a: int, b: int| 0 <= a < b < n && a < i ==> v[a] != v[b],
        decreases n - i,
    {
        let mut j: usize = i + 1;
        while j < n
            invariant
                v == byte_views(list@),
                n == list@.len(),
                i < n,
                i + 1 <= j <= n,
                forall|a: int, b: int| 0 <= a < b < n && a < i ==> v[a] != v[b],
                forall|b: int| i < b < j ==> v[i as int] != v[b],
            decreases n - j,
        {
            if bytes_eq(&list[i], &list[j]) {
                assert(v[i as int] == v[j as int]);
                return false;
            }
            j = j + 1;
        }
        i = i + 1;
    }
    true
}

/// Whether `data` begins with `prefix`.
pub fn has_prefix(data: &Vec<u8>, prefix: &Vec<u8>) -> (r: bool)
    ensures
        r == (prefix@.len() <= data@.len() && data@.subrange(0, prefix@.len() as int) == prefix@),
{
    let n = prefix.len();
    if data.len() < n {
        return false;
    }
    let mut i: usize = 0;
    while i < n
        invariant
            n == prefix@.len(),
            n <= data@.len(),
            i <= n,
            forall|j: int| 0 <= j < i ==> data@[j] == prefix@[j],
        decreases n - i,
    {
        if data[i] != prefix[i] {
            assert(data@.subrange(0, n as int)[i as int] != prefix@[i as int]);
            return false;
        }
        i = i + 1;
    }
    assert(data@.subrange(0, n as int) =~= prefix@);
    true
}

/// The decimal digits of a natural number, most significant first, as ASCII bytes.
pub open spec fn decimal(n: nat) -> Seq<u8>
    decreases n,
{
    if n < 10 {
        seq![(48 + n) as u8]
    } else {
        decimal(n / 10).push((48 + n % 10) as u8)
    }
}

/// The decimal rendering of an unsigned integer, as ASCII bytes.
pub fn decimal_bytes(n: u64) -> (r: Vec<u8>)
    ensures
        r@ == decimal(n as nat),
    decreases n,
{
    if n < 10 {
        let mut r: Vec<u8> = Vec::new();
        r.push((48 + n) as u8);
        assert(r@ =~= seq![(48 + n) as u8]);
        r
    } else {
        let mut r = decimal_bytes(n / 10);
        r.push((48 + n % 10) as u8);
        r
    }
}

} // verus!
