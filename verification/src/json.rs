//! A JSON document model and the deep merge behind `PUT /config`'s partial
//! update: an object patch overwrites the keys it names and keeps every other
//! key of the stored document; any other patch replaces the base wholesale.

use vstd::prelude::*;
use crate::text::str_eq;

verus! {

/// A JSON value. Numbers keep their literal text; object members are
/// `(key, value)` pairs with distinct keys (member order carries no meaning).
#[derive(Debug)]
pub enum JsonValue {
    Null,
    Bool(bool),
    Number(String),
    Str(String),
    Array(Vec<JsonValue>),
    Object(Vec<(String, JsonValue)>),
}

/// Index of the member named `key`, if any.
pub open spec fn member_index(members: Seq<(String, JsonValue)>, key: Seq<char>) -> Option<int> {
    if exists|i: int| 0 <= i < members.len() && (#[trigger] members[i]).0@ == key {
        Some(choose|i: int| 0 <= i < members.len() && (#[trigger] members[i]).0@ == key)
    } else {
        None
    }
}

/// Member keys are pairwise distinct.
pub open spec fn distinct_keys(members: Seq<(String, JsonValue)>) -> bool {
    forall|i: int, j: int|
        0 <= i < members.len() && 0 <= j < members.len() && i != j ==> (#[trigger] members[i]).0@
            != (#[trigger] members[j]).0@
}

/// Whether `key` names a member.
pub open spec fn has_member(members: Seq<(String, JsonValue)>, key: Seq<char>) -> bool {
    exists|i: int| 0 <= i < members.len() && (#[trigger] members[i]).0@ == key
}

/// The value of the member named `key` (meaningful when `has_member`).
pub open spec fn member_value(members: Seq<(String, JsonValue)>, key: Seq<char>) -> JsonValue {
    members[member_index(members, key)->0].1
}

/// `result` is the deep merge of `patch` over `base`:
/// - two objects merge member by member: a key of `patch` takes the merge of
///   its value over the base's value of that key (or the patch value alone
///   when the base lacks it); a key only `base` has keeps its value; no other
///   key appears;
/// - any other combination yields `patch` itself.
pub open spec fn is_merge(base: JsonValue, patch: JsonValue, result: JsonValue) -> bool
    decreases patch,
{
    match patch {
        JsonValue::Object(p) => match base {
            JsonValue::Object(b) => match result {
                JsonValue::Object(r) => {
                    &&& distinct_keys(r@)
                    &&& forall|k: Seq<char>| #[trigger]
                        has_member(r@, k) <==> (has_member(b@, k) || has_member(p@, k))
                    &&& forall|i: int|
                        0 <= i < r@.len() && !has_member(p@, (#[trigger] r@[i]).0@) ==> r@[i].1
                            == member_value(b@, r@[i].0@)
                    &&& forall|i: int, j: int|
                        0 <= i < r@.len() && 0 <= j < p@.len() && (#[trigger] r@[i]).0@ == (
                        #[trigger] p@[j]).0@ ==> if has_member(b@, p@[j].0@) {
                            is_merge(member_value(b@, p@[j].0@), p@[j].1, r@[i].1)
                        } else {
                            r@[i].1 == p@[j].1
                        }
                },
                _ => false,
            },
            _ => result == patch,
        },
        _ => result == patch,
    }
}


/// Every object in the document (at any depth) has distinct member keys, as
/// a parsed JSON map does.
pub open spec fn well_formed(v: JsonValue) -> bool
    decreases v,
{
    match v {
        JsonValue::Object(m) => {
            &&& distinct_keys(m@)
            &&& forall|i: int| 0 <= i < m@.len() ==> well_formed(#[trigger] m@[i].1)
        },
        JsonValue::Array(a) => forall|i: int| 0 <= i < a@.len() ==> well_formed(#[trigger] a@[i]),
        _ => true,
    }
}

proof fn lemma_member_value(members: Seq<(String, JsonValue)>, i: int)
    requires
        distinct_keys(members),
        0 <= i < members.len(),
    ensures
        has_member(members, members[i].0@),
        member_index(members, members[i].0@) == Some(i),
        member_value(members, members[i].0@) == members[i].1,
{
    assert(has_member(members, members[i].0@));
    let j = choose|j: int| 0 <= j < members.len() && (#[trigger] members[j]).0@ == members[i].0@;
    assert(j == i);
}

/// The processed suffix of the patch grows by one member.
proof fn lemma_done_grows(p0: Seq<(String, JsonValue)>, n: int)
    requires
        0 <= n < p0.len(),
    ensures
        forall|k: Seq<char>| #[trigger] has_member(p0.subrange(n, p0.len() as int), k) <==> (
            has_member(p0.subrange(n + 1, p0.len() as int), k) || p0[n].0@ == k),
{
    let a = p0.subrange(n, p0.len() as int);
    let c = p0.subrange(n + 1, p0.len() as int);
    assert forall|k: Seq<char>| #[trigger] has_member(a, k) <==> (has_member(c, k) || p0[n].0@ == k) by {
        if has_member(a, k) {
            let j = choose|j: int| 0 <= j < a.len() && (#[trigger] a[j]).0@ == k;
            if j > 0 {
                assert(c[j - 1] == a[j]);
            }
        }
        if has_member(c, k) {
            let j = choose|j: int| 0 <= j < c.len() && (#[trigger] c[j]).0@ == k;
            assert(a[j + 1] == c[j]);
        }
        if p0[n].0@ == k {
            assert(a[0] == p0[n]);
        }
    }
}

/// Replacing the member at `i` by one with the same key keeps the key set and
/// the distinctness of keys.
proof fn lemma_replace_member(m: Seq<(String, JsonValue)>, i: int, x: (String, JsonValue))
    requires
        distinct_keys(m),
        0 <= i < m.len(),
        x.0@ == m[i].0@,
    ensures
        distinct_keys(m.remove(i).push(x)),
        forall|k: Seq<char>| #[trigger] has_member(m.remove(i).push(x), k) <==> has_member(m, k),
{
    let r = m.remove(i).push(x);
    assert forall|a: int, b: int| 0 <= a < r.len() && 0 <= b < r.len() && a != b implies (#[trigger] r[a]).0@
        != (#[trigger] r[b]).0@ by {
        let oa = if a == r.len() - 1 { i } else if a < i { a } else { a + 1 };
        let ob = if b == r.len() - 1 { i } else if b < i { b } else { b + 1 };
        assert(r[a].0@ == m[oa].0@);
        assert(r[b].0@ == m[ob].0@);
    }
    assert forall|k: Seq<char>| #[trigger] has_member(r, k) <==> has_member(m, k) by {
        if has_member(r, k) {
            let a = choose|a: int| 0 <= a < r.len() && (#[trigger] r[a]).0@ == k;
            let oa = if a == r.len() - 1 { i } else if a < i { a } else { a + 1 };
            assert(m[oa].0@ == k);
        }
        if has_member(m, k) {
            let a = choose|a: int| 0 <= a < m.len() && (#[trigger] m[a]).0@ == k;
            if a == i {
                assert(r[r.len() - 1].0@ == k);
            } else if a < i {
                assert(r[a] == m[a]);
            } else {
                assert(r[a - 1] == m[a]);
            }
        }
    }
}

/// Appending a member with a fresh key keeps keys distinct and adds exactly
/// that key.
proof fn lemma_push_member(m: Seq<(String, JsonValue)>, x: (String, JsonValue))
    requires
        distinct_keys(m),
        !has_member(m, x.0@),
    ensures
        distinct_keys(m.push(x)),
        forall|k: Seq<char>| #[trigger] has_member(m.push(x), k) <==> (has_member(m, k) || k == x.0@),
{
    let r = m.push(x);
    assert forall|a: int, b: int| 0 <= a < r.len() && 0 <= b < r.len() && a != b implies (#[trigger] r[a]).0@
        != (#[trigger] r[b]).0@ by {
        if a == m.len() {
            assert(r[b] == m[b]);
        } else if b == m.len() {
            assert(r[a] == m[a]);
        } else {
            assert(r[a] == m[a]);
            assert(r[b] == m[b]);
        }
    }
    assert forall|k: Seq<char>| #[trigger] has_member(r, k) <==> (has_member(m, k) || k == x.0@) by {
        if has_member(r, k) {
            let a = choose|a: int| 0 <= a < r.len() && (#[trigger] r[a]).0@ == k;
            if a < m.len() {
                assert(m[a] == r[a]);
            }
        }
        if has_member(m, k) {
            let a = choose|a: int| 0 <= a < m.len() && (#[trigger] m[a]).0@ == k;
            assert(r[a] == m[a]);
        }
        if k == x.0@ {
            assert(r[m.len() as int] == x);
        }
    }
}

/// Position of the member named `key` in `members`.
fn find_member(members: &Vec<(String, JsonValue)>, key: &String) -> (r: Option<usize>)
    ensures
        match r {
            Some(i) => i < members@.len() && members@[i as int].0@ == key@,
            None => !has_member(members@, key@),
        },
{
    let mut i: usize = 0;
    while i < members.len()
        invariant
            i <= members@.len(),
            forall|j: int| 0 <= j < i ==> (#[trigger] members@[j]).0@ != key@,
        decreases members@.len() - i,
    {
        if str_eq(members[i].0.as_str(), key.as_str()) {
            return Some(i);
        }
        i = i + 1;
    }
    None
}

/// Deep merge of `patch` over `base` (the partial-update rule of
/// `PUT /config`): see [`is_merge`].
pub fn merge_json(base: JsonValue, patch: JsonValue) -> (result: JsonValue)
    requires
        well_formed(base),
        well_formed(patch),
    ensures
        is_merge(base, patch, result),
        well_formed(result),
    decreases patch,
{
    match patch {
        JsonValue::Object(p) => match base {
            JsonValue::Object(b) => {
                let ghost b0 = b@;
                let ghost p0 = p@;
                let merged = merge_members(b, p);
                let result = JsonValue::Object(merged);
                proof {
                    assert(is_merge(JsonValue::Object(b), JsonValue::Object(p), result));
                }
                result
            },
            other => JsonValue::Object(p),
        },
        other => other,
    }
}

/// Member-wise merge of two objects' members.
fn merge_members(b: Vec<(String, JsonValue)>, p: Vec<(String, JsonValue)>) -> (r: Vec<(String, JsonValue)>)
    requires
        distinct_keys(b@),
        distinct_keys(p@),
        forall|i: int| 0 <= i < b@.len() ==> well_formed(#[trigger] b@[i].1),
        forall|i: int| 0 <= i < p@.len() ==> well_formed(#[trigger] p@[i].1),
    ensures
        distinct_keys(r@),
        forall|i: int| 0 <= i < r@.len() ==> well_formed(#[trigger] r@[i].1),
        forall|k: Seq<char>| #[trigger]
            has_member(r@, k) <==> (has_member(b@, k) || has_member(p@, k)),
        forall|i: int|
            0 <= i < r@.len() && !has_member(p@, (#[trigger] r@[i]).0@) ==> r@[i].1 == member_value(
                b@,
                r@[i].0@,
            ),
        forall|i: int, j: int|
            0 <= i < r@.len() && 0 <= j < p@.len() && (#[trigger] r@[i]).0@ == (#[trigger] p@[j]).0@
                ==> if has_member(b@, p@[j].0@) {
                is_merge(member_value(b@, p@[j].0@), p@[j].1, r@[i].1)
            } else {
                r@[i].1 == p@[j].1
            },
    decreases p,
{
    let ghost b0 = b@;
    let ghost p0 = p@;
    let ghost p_entry = p;
    let mut merged = b;
    let mut rest = p;
    #[verifier::loop_isolation(false)]
    while rest.len() > 0
        invariant
            p0.len() >= rest@.len(),
            p_entry@ == p0,
            rest@ == p0.subrange(0, rest@.len() as int),
            distinct_keys(b0),
            distinct_keys(p0),
            forall|i: int| 0 <= i < b0.len() ==> well_formed(#[trigger] b0[i].1),
            forall|i: int| 0 <= i < p0.len() ==> well_formed(#[trigger] p0[i].1),
            distinct_keys(merged@),
            forall|i: int| 0 <= i < merged@.len() ==> well_formed(#[trigger] merged@[i].1),
            // keys: the base's plus the processed patch members'
            forall|k: Seq<char>| #[trigger]
                has_member(merged@, k) <==> (has_member(b0, k) || has_member(
                    p0.subrange(rest@.len() as int, p0.len() as int),
                    k,
                )),
            forall|i: int|
                0 <= i < merged@.len() && !has_member(
                    p0.subrange(rest@.len() as int, p0.len() as int),
                    (#[trigger] merged@[i]).0@,
                ) ==> merged@[i].1 == member_value(b0, merged@[i].0@),
            forall|i: int, j: int|
                0 <= i < merged@.len() && rest@.len() <= j < p0.len() && (
                #[trigger] merged@[i]).0@ == (#[trigger] p0[j]).0@ ==> if has_member(
                    b0,
                    p0[j].0@,
                ) {
                    is_merge(member_value(b0, p0[j].0@), p0[j].1, merged@[i].1)
                } else {
                    merged@[i].1 == p0[j].1
                },
        decreases rest@.len(),
    {
        let ghost before = merged@;
        let ghost n = (rest@.len() - 1) as int;
        let ghost done_before = p0.subrange(n + 1, p0.len() as int);
        let ghost done_after = p0.subrange(n, p0.len() as int);
        let (key, value) = rest.pop().unwrap();
        proof {
            assert(p0[n] == (key, value));
            lemma_done_grows(p0, n);
            assert(decreases_to!(p_entry => p_entry@));
            assert(decreases_to!(p_entry@ => p_entry@[n]));
            assert(decreases_to!(p_entry@[n] => p_entry@[n].1));
            assert(decreases_to!(p_entry => value));
        }
        let idx = find_member(&merged, &key);
        match idx {
            Some(i) => {
                let (ek, ev) = merged.remove(i);
                proof {
                    lemma_member_value(before, i as int);
                    assert(ev == before[i as int].1);
                    assert(!has_member(done_before, key@)) by {
                        if has_member(done_before, key@) {
                            let j = choose|j: int| 0 <= j < done_before.len() && (#[trigger] done_before[j]).0@ == key@;
                            assert(p0[n + 1 + j] == done_before[j]);
                        }
                    }
                }
                let nv = merge_json(ev, value);
                merged.push((ek, nv));
                proof {
                    lemma_replace_member(before, i as int, (ek, nv));
                    assert(merged@ =~= before.remove(i as int).push((ek, nv)));
                    assert forall|q: int| 0 <= q < merged@.len() && !has_member(done_after, (#[trigger] merged@[q]).0@)
                        implies merged@[q].1 == member_value(b0, merged@[q].0@) by {
                        if q < merged@.len() - 1 {
                            let o = if q < i { q } else { q + 1 };
                            assert(merged@[q] == before[o]);
                        }
                    }
                    assert forall|q: int, j: int| 0 <= q < merged@.len() && n <= j < p0.len() && (
                        #[trigger] merged@[q]).0@ == (#[trigger] p0[j]).0@ implies if has_member(b0, p0[j].0@) {
                            is_merge(member_value(b0, p0[j].0@), p0[j].1, merged@[q].1)
                        } else {
                            merged@[q].1 == p0[j].1
                        } by {
                        if q == merged@.len() - 1 {
                            if j != n {
                                assert(p0[j].0@ != p0[n].0@);
                            }
                            // the base had this key unless an earlier patch member added it
                            if has_member(b0, key@) {
                                assert(ev == member_value(b0, key@));
                            } else {
                                assert(has_member(done_before, key@));
                            }
                        } else {
                            let o = if q < i { q } else { q + 1 };
                            assert(merged@[q] == before[o]);
                            assert(before[o].0@ != key@);
                        }
                    }
                }
            },
            None => {
                merged.push((key, value));
                proof {
                    assert forall|q: int| 0 <= q < merged@.len() && !has_member(done_after, (#[trigger] merged@[q]).0@)
                        implies merged@[q].1 == member_value(b0, merged@[q].0@) by {
                        if q < merged@.len() - 1 {
                            assert(merged@[q] == before[q]);
                        }
                    }
                    assert forall|q: int, j: int| 0 <= q < merged@.len() && n <= j < p0.len() && (
                        #[trigger] merged@[q]).0@ == (#[trigger] p0[j]).0@ implies if has_member(b0, p0[j].0@) {
                            is_merge(member_value(b0, p0[j].0@), p0[j].1, merged@[q].1)
                        } else {
                            merged@[q].1 == p0[j].1
                        } by {
                        if q == merged@.len() - 1 {
                            if j != n {
                                assert(p0[j].0@ != p0[n].0@);
                            }
                            assert(!has_member(b0, key@));
                        } else {
                            assert(merged@[q] == before[q]);
                        }
                    }
                    lemma_push_member(before, (key, value));
                }
            },
        }
    }
    proof {
        assert(p0.subrange(0, p0.len() as int) =~= p0);
    }
    merged
}

/// A patch that is not an object (a scalar, an array, `null`) replaces the
/// base wholesale.
pub proof fn law_non_object_patch_replaces(base: JsonValue, patch: JsonValue, result: JsonValue)
    requires
        !(patch is Object),
        is_merge(base, patch, result),
    ensures
        result == patch,
{
}

/// Merging an empty object over an object keeps every member of the base,
/// with its value, and adds none.
pub proof fn law_empty_patch_keeps_base(base: Vec<(String, JsonValue)>, empty: Vec<(String, JsonValue)>, result: JsonValue)
    requires
        empty@.len() == 0,
        is_merge(JsonValue::Object(base), JsonValue::Object(empty), result),
    ensures
        result matches JsonValue::Object(r) && (forall|k: Seq<char>| #[trigger] has_member(r@, k) <==> has_member(base@, k))
            && (forall|i: int| 0 <= i < r@.len() ==> (#[trigger] r@[i]).1 == member_value(base@, r@[i].0@)),
{
    match result {
        JsonValue::Object(r) => {
            assert forall|k: Seq<char>| #[trigger] has_member(r@, k) <==> has_member(base@, k) by {
                assert(!has_member(empty@, k));
            }
            assert forall|i: int| 0 <= i < r@.len() implies (#[trigger] r@[i]).1 == member_value(base@, r@[i].0@) by {
                assert(!has_member(empty@, r@[i].0@));
            }
        },
        _ => {},
    }
}

} // verus!
