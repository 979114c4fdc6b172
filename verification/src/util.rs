use vstd::prelude::*;

verus! {

/// The smaller of two lengths, used to cap the sampling budget.
pub fn min_usize(a: usize, b: usize) -> (r: usize)
    ensures
        r == if a <= b {
            a as int
        } else {
            b as int
        },
{
    if a <= b {
        a
    } else {
        b
    }
}

/// Append every character of `src` to `dst`.
pub fn push_all(dst: &mut Vec<char>, src: &Vec<char>)
    ensures
        final(dst)@ == old(dst)@ + src@,
{
    let mut i: usize = 0;
    while i < src.len()
        invariant
            i <= src@.len(),
            dst@ == old(dst)@ + src@.take(i as int),
        decreases src.len() - i,
    {
        let c = src[i];
        dst.push(c);
        assert(dst@ =~= old(dst)@ + src@.take(i + 1 as int));
        i = i + 1;
    }
    proof {
        assert(old(dst)@ + src@.take(src@.len() as int) =~= old(dst)@ + src@);
    }
}

/// A copy of a character vector.
pub fn copy_chars(src: &Vec<char>) -> (r: Vec<char>)
    ensures
        r@ == src@,
{
    let mut r: Vec<char> = Vec::new();
    push_all(&mut r, src);
    assert(r@ =~= src@);
    r
}

/// A copy of a token vector.
pub fn copy_tokens(src: &Vec<u32>) -> (r: Vec<u32>)
    ensures
        r@ == src@,
{
    let mut r: Vec<u32> = Vec::new();
    let mut i: usize = 0;
    while i < src.len()
        invariant
            i <= src@.len(),
            r@ == src@.take(i as int),
        decreases src.len() - i,
    {
        let t = src[i];
        r.push(t);
        assert(r@ =~= src@.take(i + 1 as int));
        i = i + 1;
    }
    proof {
        assert(src@.take(src@.len() as int) =~= src@);
    }
    r
}

/// The tokens of `src` from position `from` on, as a fresh vector.
pub fn tokens_from(src: &Vec<u32>, from: usize) -> (r: Vec<u32>)
    requires
        from <= src.len(),
    ensures
        r@ == src@.skip(from as int),
{
    let mut r: Vec<u32> = Vec::new();
    let mut i: usize = from;
    while i < src.len()
        invariant
            from <= i <= src@.len(),
            r@ == src@.subrange(from as int, i as int),
        decreases src.len() - i,
    {
        let t = src[i];
        r.push(t);
        assert(r@ =~= src@.subrange(from as int, i + 1 as int));
        i = i + 1;
    }
    assert(r@ =~= src@.skip(from as int));
    r
}

/// Whether two character vectors hold the same text.
pub fn chars_eq(a: &Vec<char>, b: &Vec<char>) -> (r: bool)
    ensures
        r == (a@ == b@),
{
    if a.len() != b.len() {
        return false;
    }
    let mut i: usize = 0;
    while i < a.len()
        invariant
            i <= a@.len(),
            a@.len() == b@.len(),
            forall|j: int| 0 <= j < i ==> a@[j] == b@[j],
        decreases a.len() - i,
    {
        if a[i] != b[i] {
            return false;
        }
        i = i + 1;
    }
    proof {
        assert(a@ =~= b@);
    }
    true
}

} // verus!
