use vstd::prelude::*;

verus! {

/// The values of the named object field of a JSON document, in the order
/// the map holds them: each string value as its bytes, any other value as
/// `None`; `None` overall when the bytes do not parse as JSON or the field
/// is absent or not an object. A function of the bytes and the key alone:
/// serde_json's default map is ordered by key, so even the order is fixed
/// by the document.
pub uninterp spec fn object_string_values(bytes: Seq<u8>, key: Seq<char>) -> Option<
    Seq<Option<Seq<u8>>>,
>;

/// The bytes of one extracted field value, where it was a string.
pub open spec fn opt_bytes_view(e: Option<Vec<u8>>) -> Option<Seq<u8>> {
    match e {
        Some(b) => Some(b@),
        None => None,
    }
}

/// Relies on serde_json::from_slice, Value::get, the Value::Object variant
/// and Value::as_str: parses the document and hands out the named object
/// field's values in map order, each mapped one for one to its string bytes
/// or to `None`.
#[verifier::external_body]
fn extract_object_strings(bytes: &Vec<u8>, key: &str) -> (r: Option<Vec<Option<Vec<u8>>>>)
    ensures
        r matches Some(vals) ==> object_string_values(bytes@, key@) == Some(
            vals@.map_values(|e: Option<Vec<u8>>| opt_bytes_view(e)),
        ),
        r is None ==> object_string_values(bytes@, key@) is None,
{
    let v: serde_json::Value = match serde_json::from_slice(bytes.as_slice()) {
        Ok(v) => v,
        Err(_) => return None,
    };
    match v.get(key) {
        Some(serde_json::Value::Object(m)) => Some(
            m.values().map(|x| x.as_str().map(|s| s.as_bytes().to_vec())).collect(),
        ),
        _ => None,
    }
}

/// No entry occurs twice.
pub open spec fn distinct_seq(s: Seq<Seq<u8>>) -> bool {
    forall|i: int, j: int| 0 <= i < j < s.len() ==> s[i] != s[j]
}

/// The byte views of a vector of byte vectors.
pub open spec fn bytes_view(v: Seq<Vec<u8>>) -> Seq<Seq<u8>> {
    v.map_values(|e: Vec<u8>| e@)
}

/// Keep-first deduplication: every entry once, first occurrences in order.
pub open spec fn spec_dedup(s: Seq<Seq<u8>>) -> Seq<Seq<u8>>
    decreases s.len(),
{
    if s.len() == 0 {
        Seq::empty()
    } else {
        let rest = spec_dedup(s.drop_last());
        if s.drop_last().contains(s.last()) {
            rest
        } else {
            rest.push(s.last())
        }
    }
}

/// Deduplication keeps exactly the values of the input.
pub proof fn lemma_dedup_contains(s: Seq<Seq<u8>>)
    ensures
        forall|x: Seq<u8>| #[trigger] spec_dedup(s).contains(x) == s.contains(x),
    decreases s.len(),
{
    if s.len() > 0 {
        lemma_dedup_contains(s.drop_last());
        assert forall|x: Seq<u8>| #[trigger] spec_dedup(s).contains(x) == s.contains(x) by {
            let short = s.drop_last();
            lemma_push_contains(spec_dedup(short), s.last(), x);
            assert(spec_dedup(short).contains(x) == short.contains(x));
            if s.contains(x) {
                let idx = choose|idx: int| 0 <= idx < s.len() && #[trigger] s[idx] == x;
                if idx < s.len() - 1 {
                    assert(short[idx] == x);
                    assert(short.contains(x));
                } else {
                    assert(x == s.last());
                }
                assert(spec_dedup(s).contains(x));
            }
            if spec_dedup(s).contains(x) {
                if short.contains(s.last()) {
                    assert(spec_dedup(s) == spec_dedup(short));
                    assert(short.contains(x));
                    let idx = choose|idx: int| 0 <= idx < short.len() && #[trigger] short[idx] == x;
                    assert(s[idx] == x);
                } else {
                    assert(spec_dedup(s) == spec_dedup(short).push(s.last()));
                    if x == s.last() {
                        assert(s[s.len() - 1] == x);
                    } else {
                        assert(spec_dedup(short).contains(x));
                        let idx = choose|idx: int|
                            0 <= idx < short.len() && #[trigger] short[idx] == x;
                        assert(s[idx] == x);
                    }
                }
                assert(s.contains(x));
            }
        }
    }
}

/// Membership in a pushed sequence: the new element, or one already there.
proof fn lemma_push_contains(s: Seq<Seq<u8>>, e: Seq<u8>, x: Seq<u8>)
    ensures
        s.push(e).contains(x) == (s.contains(x) || x == e),
{
    if s.push(e).contains(x) {
        let idx = choose|idx: int| 0 <= idx < s.push(e).len() && #[trigger] s.push(e)[idx] == x;
        if idx < s.len() {
            assert(s[idx] == x);
        }
    }
    if s.contains(x) {
        let idx = choose|idx: int| 0 <= idx < s.len() && #[trigger] s[idx] == x;
        assert(s.push(e)[idx] == x);
    }
    if x == e {
        assert(s.push(e)[s.len() as int] == x);
    }
}

/// The result of deduplication has no repeated entry.
pub proof fn lemma_dedup_distinct(s: Seq<Seq<u8>>)
    ensures
        distinct_seq(spec_dedup(s)),
    decreases s.len(),
{
    if s.len() > 0 {
        let short = s.drop_last();
        lemma_dedup_distinct(short);
        lemma_dedup_contains(short);
        if !short.contains(s.last()) {
            let d = spec_dedup(short);
            assert forall|i: int, j: int|
                0 <= i < j < d.push(s.last()).len() implies d.push(s.last())[i] != d.push(
                s.last(),
            )[j] by {
                if j < d.len() {
                    assert(d[i] != d[j]);
                } else {
                    assert(d.contains(d[i]));
                }
            }
        }
    }
}

/// Whether `x` occurs in `v`.
fn contains_bytes(v: &Vec<Vec<u8>>, x: &Vec<u8>) -> (r: bool)
    ensures
        r == bytes_view(v@).contains(x@),
{
    let mut i: usize = 0;
    while i < v.len()
        invariant
            i <= v@.len(),
            forall|j: int| 0 <= j < i ==> bytes_view(v@)[j] != x@,
        decreases v.len() - i,
    {
        if bytes_eq(&v[i], x) {
            assert(bytes_view(v@)[i as int] == x@);
            return true;
        }
        i = i + 1;
    }
    false
}

/// Whether two byte vectors hold the same bytes.
fn bytes_eq(a: &Vec<u8>, b: &Vec<u8>) -> (r: bool)
    ensures
        r == (a@ == b@),
{
    if a.len() != b.len() {
        return false;
    }
    let mut i: usize = 0;
    while i < a.len()
        invariant
            i <= a@.len(),
            a@.len() == b@.len(),
            forall|j: int| 0 <= j < i ==> a@[j] == b@[j],
        decreases a.len() - i,
    {
        if a[i] != b[i] {
            return false;
        }
        i = i + 1;
    }
    proof {
        assert(a@ =~= b@);
    }
    true
}

/// Keep-first deduplication of a list of byte strings.
pub fn dedup_first(xs: &Vec<Vec<u8>>) -> (r: Vec<Vec<u8>>)
    ensures
        bytes_view(r@) == spec_dedup(bytes_view(xs@)),
        distinct_seq(bytes_view(r@)),
{
    let mut out: Vec<Vec<u8>> = Vec::new();
    let mut i: usize = 0;
    while i < xs.len()
        invariant
            i <= xs@.len(),
            bytes_view(out@) == spec_dedup(bytes_view(xs@).take(i as int)),
        decreases xs.len() - i,
    {
        let ghost pre = bytes_view(xs@).take(i as int);
        proof {
            assert(bytes_view(xs@).take(i + 1 as int).drop_last() =~= pre);
            assert(bytes_view(xs@).take(i + 1 as int).last() == bytes_view(xs@)[i as int]);
            lemma_dedup_contains(pre);
        }
        let x = &xs[i];
        if !contains_bytes(&out, x) {
            let copy = copy_bytes(x);
            out.push(copy);
            proof {
                assert(bytes_view(out@) =~= spec_dedup(pre).push(x@));
            }
        }
        i = i + 1;
    }
    proof {
        assert(bytes_view(xs@).take(xs@.len() as int) =~= bytes_view(xs@));
        lemma_dedup_distinct(bytes_view(xs@));
    }
    out
}

/// A copy of a byte vector.
fn copy_bytes(src: &Vec<u8>) -> (r: Vec<u8>)
    ensures
        r@ == src@,
{
    let mut r: Vec<u8> = Vec::new();
    let mut i: usize = 0;
    while i < src.len()
        invariant
            i <= src@.len(),
            r@ == src@.take(i as int),
        decreases src.len() - i,
    {
        let b = src[i];
        r.push(b);
        assert(r@ =~= src@.take(i + 1 as int));
        i = i + 1;
    }
    assert(r@ =~= src@.take(src@.len() as int));
    assert(src@.take(src@.len() as int) =~= src@);
    r
}

/// The string entries of an extracted value list, in order.
pub open spec fn some_entries(s: Seq<Option<Seq<u8>>>) -> Seq<Seq<u8>>
    decreases s.len(),
{
    if s.len() == 0 {
        Seq::empty()
    } else {
        let rest = some_entries(s.drop_last());
        match s.last() {
            Some(b) => rest.push(b),
            None => rest,
        }
    }
}

/// The distinct weight-file names that a safetensors index document maps its
/// weights to: exactly the string values of its `weight_map` object, first
/// occurrences kept in map order and duplicates dropped, or `None` when the
/// bytes are not a JSON document holding a `weight_map` object.
pub fn weight_files(index_bytes: &Vec<u8>) -> (r: Option<Vec<Vec<u8>>>)
    ensures
        (r is Some) == (object_string_values(index_bytes@, "weight_map"@) is Some),
        r matches Some(files) ==> bytes_view(files@) == spec_dedup(
            some_entries(object_string_values(index_bytes@, "weight_map"@)->Some_0),
        ),
        r matches Some(files) ==> distinct_seq(bytes_view(files@)),
{
    match extract_object_strings(index_bytes, "weight_map") {
        None => None,
        Some(vals) => {
            let ghost vv = vals@.map_values(|e: Option<Vec<u8>>| opt_bytes_view(e));
            let mut names: Vec<Vec<u8>> = Vec::new();
            let mut i: usize = 0;
            while i < vals.len()
                invariant
                    i <= vals@.len(),
                    vv == vals@.map_values(|e: Option<Vec<u8>>| opt_bytes_view(e)),
                    bytes_view(names@) == some_entries(vv.take(i as int)),
                decreases vals.len() - i,
            {
                proof {
                    assert(vv.take(i + 1 as int).drop_last() =~= vv.take(i as int));
                    assert(vv.take(i + 1 as int).last() == vv[i as int]);
                    assert(vv[i as int] == opt_bytes_view(vals@[i as int]));
                }
                let entry = &vals[i];
                match entry {
                    Some(b) => {
                        let copy = copy_bytes(b);
                        names.push(copy);
                        proof {
                            assert(bytes_view(names@) =~= some_entries(vv.take(i as int)).push(
                                b@,
                            ));
                        }
                    },
                    None => {},
                }
                i = i + 1;
            }
            proof {
                assert(vv.take(vv.len() as int) =~= vv);
            }
            Some(dedup_first(&names))
        },
    }
}

} // verus!
