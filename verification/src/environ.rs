use vstd::prelude::*;

verus! {

/// The byte `=` that separates a variable's name from its value.
pub const EQUALS: u8 = 61;

/// The index of the first `=` in `entry`, or its length when there is none.
pub open spec fn name_end(entry: Seq<u8>) -> int
    decreases entry.len(),
{
    if entry.len() == 0 {
        0
    } else if entry[0] == EQUALS {
        0
    } else {
        1 + name_end(entry.drop_first())
    }
}

/// The variable name of an environment entry: the bytes before the first `=`.
pub open spec fn entry_name(entry: Seq<u8>) -> Seq<u8> {
    entry.take(name_end(entry))
}

/// Whether `bytes` holds a NUL byte, which a C string cannot carry.
pub open spec fn has_nul(bytes: Seq<u8>) -> bool {
    exists|i: int| 0 <= i < bytes.len() && bytes[i] == 0
}

/// The UTF-8 bytes of a string.
pub open spec fn utf8_bytes(s: Seq<char>) -> Seq<u8> {
    vstd::utf8::encode_utf8(s)
}

/// Whether some override names the variable of `entry`.
pub open spec fn overridden(entry: Seq<u8>, overrides: Seq<(String, String)>) -> bool {
    exists|k: int| 0 <= k < overrides.len() && utf8_bytes(overrides[k].0@) == entry_name(entry)
}

/// The entry `name=value` an override puts in the environment.
pub open spec fn override_entry(o: (String, String)) -> Seq<u8> {
    utf8_bytes(o.0@) + seq![EQUALS] + utf8_bytes(o.1@)
}

/// The inherited entries kept: those no override names, that a C string
/// can carry, in their order.
pub open spec fn kept_inherited(inherited: Seq<Vec<u8>>, overrides: Seq<(String, String)>) -> Seq<Seq<u8>>
    decreases inherited.len(),
{
    if inherited.len() == 0 {
        seq![]
    } else {
        let e = inherited.last()@;
        kept_inherited(inherited.drop_last(), overrides) + if !overridden(e, overrides) && !has_nul(e) {
            seq![e]
        } else {
            seq![]
        }
    }
}

/// The override entries added, in order, leaving out those a C string
/// cannot carry.
pub open spec fn added_overrides(overrides: Seq<(String, String)>) -> Seq<Seq<u8>>
    decreases overrides.len(),
{
    if overrides.len() == 0 {
        seq![]
    } else {
        let e = override_entry(overrides.last());
        added_overrides(overrides.drop_last()) + if !has_nul(e) {
            seq![e]
        } else {
            seq![]
        }
    }
}

/// The merged environment: kept inherited entries, then the overrides.
pub open spec fn merge_spec(inherited: Seq<Vec<u8>>, overrides: Seq<(String, String)>) -> Seq<Seq<u8>> {
    kept_inherited(inherited, overrides) + added_overrides(overrides)
}

/// The index of the first `=` of `entry`, or its length.
fn find_name_end(entry: &Vec<u8>) -> (r: usize)
    ensures
        r == name_end(entry@),
        r <= entry@.len(),
{
    let mut i: usize = 0;
    proof {
        assert(entry@.subrange(0, entry@.len() as int) =~= entry@);
    }
    while i < entry.len()
        invariant
            i <= entry@.len(),
            forall|j: int| 0 <= j < i ==> entry@[j] != EQUALS,
            name_end(entry@) == i + name_end(entry@.subrange(i as int, entry@.len() as int)),
        decreases entry@.len() - i,
    {
        proof {
            let rest = entry@.subrange(i as int, entry@.len() as int);
            assert(rest.drop_first() =~= entry@.subrange(i + 1, entry@.len() as int));
        }
        if entry[i] == EQUALS {
            return i;
        }
        i = i + 1;
    }
    proof {
        assert(entry@.subrange(i as int, entry@.len() as int).len() == 0);
    }
    i
}

/// Whether `bytes` holds a NUL byte.
fn contains_nul(bytes: &[u8]) -> (r: bool)
    ensures
        r == has_nul(bytes@),
{
    let mut i: usize = 0;
    while i < bytes.len()
        invariant
            i <= bytes@.len(),
            forall|j: int| 0 <= j < i ==> bytes@[j] != 0,
        decreases bytes@.len() - i,
    {
        if bytes[i] == 0 {
            return true;
        }
        i = i + 1;
    }
    false
}

/// Whether some override names the variable of `entry`.
fn is_overridden(entry: &Vec<u8>, overrides: &Vec<(String, String)>) -> (r: bool)
    ensures
        r == overridden(entry@, overrides@),
{
    let end = find_name_end(entry);
    let name = slice_prefix(entry, end);
    let mut k: usize = 0;
    while k < overrides.len()
        invariant
            k <= overrides@.len(),
            name@ == entry_name(entry@),
            forall|j: int| 0 <= j < k ==> utf8_bytes(#[trigger] overrides@[j].0@) != entry_name(entry@),
        decreases overrides@.len() - k,
    {
        if crate::text::bytes_eq(overrides[k].0.as_str().as_bytes(), name.as_slice()) {
            return true;
        }
        k = k + 1;
    }
    false
}

/// The first `end` bytes of `bytes`.
fn slice_prefix(bytes: &Vec<u8>, end: usize) -> (r: Vec<u8>)
    requires
        end <= bytes@.len(),
    ensures
        r@ == bytes@.take(end as int),
{
    let mut out: Vec<u8> = Vec::new();
    let mut i: usize = 0;
    while i < end
        invariant
            i <= end <= bytes@.len(),
            out@ == bytes@.take(i as int),
        decreases end - i,
    {
        out.push(bytes[i]);
        proof {
            assert(out@ =~= bytes@.take(i + 1));
        }
        i = i + 1;
    }
    out
}

/// The bytes of `name=value`.
fn entry_bytes(name: &String, value: &String) -> (r: Vec<u8>)
    ensures
        r@ == utf8_bytes(name@) + seq![EQUALS] + utf8_bytes(value@),
{
    let mut out: Vec<u8> = Vec::new();
    let n = name.as_str().as_bytes();
    let v = value.as_str().as_bytes();
    let mut i: usize = 0;
    while i < n.len()
        invariant
            i <= n@.len(),
            out@ == n@.take(i as int),
        decreases n@.len() - i,
    {
        out.push(n[i]);
        proof {
            assert(out@ =~= n@.take(i + 1));
        }
        i = i + 1;
    }
    out.push(EQUALS);
    let mut j: usize = 0;
    while j < v.len()
        invariant
            j <= v@.len(),
            out@ == n@ + seq![EQUALS] + v@.take(j as int),
        decreases v@.len() - j,
    {
        out.push(v[j]);
        proof {
            assert(out@ =~= n@ + seq![EQUALS] + v@.take(j + 1));
        }
        j = j + 1;
    }
    proof {
        assert(n@.take(n@.len() as int) =~= n@);
        assert(v@.take(v@.len() as int) =~= v@);
    }
    out
}

pub open spec fn views(s: Seq<Vec<u8>>) -> Seq<Seq<u8>> {
    s.map_values(|e: Vec<u8>| e@)
}

/// The child's environment: `inherited` with `overrides` layered over it.
/// An inherited entry whose variable an override names is dropped, and each
/// override is added as `name=value`; entries holding a NUL byte are left
/// out, since a C string cannot carry them.
pub fn merge_entries(inherited: &Vec<Vec<u8>>, overrides: &Vec<(String, String)>) -> (r: Vec<Vec<u8>>)
    ensures
        views(r@) == merge_spec(inherited@, overrides@),
{
    let mut result: Vec<Vec<u8>> = Vec::new();
    let mut i: usize = 0;
    while i < inherited.len()
        invariant
            i <= inherited@.len(),
            views(result@) == kept_inherited(inherited@.take(i as int), overrides@),
        decreases inherited@.len() - i,
    {
        let entry = &inherited[i];
        proof {
            assert(inherited@.take(i + 1).drop_last() =~= inherited@.take(i as int));
            assert(inherited@.take(i + 1).last() == inherited@[i as int]);
        }
        if !is_overridden(entry, overrides) && !contains_nul(entry.as_slice()) {
            let copy = slice_prefix(entry, entry.len());
            proof {
                assert(copy@ =~= entry@);
            }
            result.push(copy);
            proof {
                assert(views(result@) =~= kept_inherited(inherited@.take(i + 1), overrides@));
            }
        } else {
            proof {
                assert(kept_inherited(inherited@.take(i + 1), overrides@) =~= kept_inherited(
                    inherited@.take(i as int),
                    overrides@,
                ));
            }
        }
        i = i + 1;
    }
    proof {
        assert(inherited@.take(inherited@.len() as int) =~= inherited@);
    }
    let ghost base = views(result@);
    let mut k: usize = 0;
    while k < overrides.len()
        invariant
            k <= overrides@.len(),
            base == kept_inherited(inherited@, overrides@),
            views(result@) == base + added_overrides(overrides@.take(k as int)),
        decreases overrides@.len() - k,
    {
        let entry = entry_bytes(&overrides[k].0, &overrides[k].1);
        proof {
            assert(overrides@.take(k + 1).drop_last() =~= overrides@.take(k as int));
            assert(overrides@.take(k + 1).last() == overrides@[k as int]);
        }
        proof {
            assert(override_entry(overrides@[k as int]) == entry@);
        }
        if !contains_nul(entry.as_slice()) {
            let ghost before = views(result@);
            result.push(entry);
            proof {
                assert(views(result@) =~= before.push(override_entry(overrides@[k as int])));
                assert(views(result@) =~= base + added_overrides(overrides@.take(k + 1)));
            }
        } else {
            proof {
                assert(added_overrides(overrides@.take(k + 1)) =~= added_overrides(
                    overrides@.take(k as int),
                ));
            }
        }
        k = k + 1;
    }
    proof {
        assert(overrides@.take(overrides@.len() as int) =~= overrides@);
    }
    result
}

/// The child's environment, or `None` when nothing is overridden, so that
/// the child inherits the process environment as it is.
pub fn merge_environ(overrides: &Vec<(String, String)>, inherited: &Vec<Vec<u8>>) -> (r: Option<
    Vec<Vec<u8>>,
>)
    ensures
        overrides@.len() == 0 <==> r is None,
        r matches Some(v) ==> views(v@) == merge_spec(inherited@, overrides@),
{
    if overrides.len() == 0 {
        return None;
    }
    Some(merge_entries(inherited, overrides))
}

/// The inherited part of the merge holds exactly the inherited entries that
/// no override names and that carry no NUL byte.
pub proof fn law_inherited_entries_kept_unless_overridden(
    inherited: Seq<Vec<u8>>,
    overrides: Seq<(String, String)>,
    e: Seq<u8>,
)
    ensures
        kept_inherited(inherited, overrides).contains(e) <==> (exists|i: int|
            0 <= i < inherited.len() && (#[trigger] inherited[i])@ == e) && !overridden(e, overrides)
            && !has_nul(e),
    decreases inherited.len(),
{
    if inherited.len() > 0 {
        let prefix = inherited.drop_last();
        law_inherited_entries_kept_unless_overridden(prefix, overrides, e);
        let last = inherited.last()@;
        let tail: Seq<Seq<u8>> = if !overridden(last, overrides) && !has_nul(last) {
            seq![last]
        } else {
            seq![]
        };
        let k = kept_inherited(prefix, overrides);
        assert(kept_inherited(inherited, overrides) == k + tail);
        if (k + tail).contains(e) {
            let j = choose|j: int| 0 <= j < (k + tail).len() && (k + tail)[j] == e;
            if j < k.len() {
                assert(k[j] == e);
                let i = choose|i: int| 0 <= i < prefix.len() && (#[trigger] prefix[i])@ == e;
                assert(inherited[i] == prefix[i]);
            } else {
                assert(inherited[inherited.len() - 1]@ == e);
            }
        }
        if (exists|i: int| 0 <= i < inherited.len() && (#[trigger] inherited[i])@ == e)
            && !overridden(e, overrides) && !has_nul(e) {
            let i = choose|i: int| 0 <= i < inherited.len() && (#[trigger] inherited[i])@ == e;
            if i < prefix.len() {
                assert(prefix[i] == inherited[i]);
                let j = choose|j: int| 0 <= j < k.len() && k[j] == e;
                assert((k + tail)[j] == e);
            } else {
                assert((k + tail)[k.len() as int] == e);
            }
        }
    }
}

/// The override part of the merge holds exactly the `name=value` entries of
/// the overrides that carry no NUL byte.
pub proof fn law_overrides_added(overrides: Seq<(String, String)>, e: Seq<u8>)
    ensures
        added_overrides(overrides).contains(e) <==> (exists|k: int|
            0 <= k < overrides.len() && override_entry(#[trigger] overrides[k]) == e) && !has_nul(e),
    decreases overrides.len(),
{
    if overrides.len() > 0 {
        let prefix = overrides.drop_last();
        law_overrides_added(prefix, e);
        let last = override_entry(overrides.last());
        let tail: Seq<Seq<u8>> = if !has_nul(last) {
            seq![last]
        } else {
            seq![]
        };
        let a = added_overrides(prefix);
        assert(added_overrides(overrides) == a + tail);
        if (a + tail).contains(e) {
            let j = choose|j: int| 0 <= j < (a + tail).len() && (a + tail)[j] == e;
            if j < a.len() {
                assert(a[j] == e);
                let k = choose|k: int| 0 <= k < prefix.len() && override_entry(#[trigger] prefix[k]) == e;
                assert(overrides[k] == prefix[k]);
            } else {
                assert(override_entry(overrides[overrides.len() - 1]) == e);
            }
        }
        if (exists|k: int| 0 <= k < overrides.len() && override_entry(#[trigger] overrides[k]) == e)
            && !has_nul(e) {
            let k = choose|k: int| 0 <= k < overrides.len() && override_entry(#[trigger] overrides[k]) == e;
            if k < prefix.len() {
                assert(prefix[k] == overrides[k]);
                let j = choose|j: int| 0 <= j < a.len() && a[j] == e;
                assert((a + tail)[j] == e);
            } else {
                assert((a + tail)[a.len() as int] == e);
            }
        }
    }
}

/// The merged environment layers the overrides over the inherited one: it
/// holds every override as `name=value`, no inherited entry that an
/// override names, and every other inherited entry (NUL-free entries only).
pub proof fn law_overrides_layer_over_inherited(
    inherited: Seq<Vec<u8>>,
    overrides: Seq<(String, String)>,
    e: Seq<u8>,
)
    ensures
        merge_spec(inherited, overrides).contains(e) <==> ((exists|i: int|
            0 <= i < inherited.len() && (#[trigger] inherited[i])@ == e) && !overridden(e, overrides)
            && !has_nul(e)) || ((exists|k: int|
            0 <= k < overrides.len() && override_entry(#[trigger] overrides[k]) == e) && !has_nul(
            e,
        )),
{
    law_inherited_entries_kept_unless_overridden(inherited, overrides, e);
    law_overrides_added(overrides, e);
    let a = kept_inherited(inherited, overrides);
    let b = added_overrides(overrides);
    if (a + b).contains(e) {
        let j = choose|j: int| 0 <= j < (a + b).len() && (a + b)[j] == e;
        if j < a.len() {
            assert(a[j] == e);
        } else {
            assert(b[j - a.len()] == e);
        }
    }
    if a.contains(e) {
        let j = choose|j: int| 0 <= j < a.len() && a[j] == e;
        assert((a + b)[j] == e);
    }
    if b.contains(e) {
        let j = choose|j: int| 0 <= j < b.len() && b[j] == e;
        assert((a + b)[a.len() + j] == e);
    }
}

} // verus!
