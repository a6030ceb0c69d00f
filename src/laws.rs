use vstd::prelude::*;
use crate::schema::{has_primary, is_key_at, names_of, role_is_primary, Field};
use crate::sqltext::{
    clauses, lemma_selected_bounds, placeholder, selected, ClauseForm, PlaceholderStyle,
};
use crate::statement::{
    fetch_params, fetch_sql, insert_flags, insert_params, key_flags, key_slots, present_flags,
    row_matches, set_flags,
};
use crate::value::Value;

verus! {

/// A fetch has one predicate per present slot of its filter and no other: the
/// `k`-th predicate and the `k`-th parameter belong to the `k`-th present field
/// in declaration order, and every present field has one.
pub proof fn fetch_follows_filter(
    fields: Seq<Field>,
    slots: Seq<Option<Value>>,
    style: PlaceholderStyle,
)
    requires
        slots.len() == fields.len(),
    ensures
        ({
            let pos = selected(present_flags(slots));
            let preds = clauses(ClauseForm::Assign, names_of(fields), pos, style, 1);
            &&& preds.len() == pos.len()
            &&& fetch_params(slots).len() == pos.len()
            &&& forall|k: int|
                0 <= k < pos.len() ==> {
                    &&& 0 <= #[trigger] pos[k] < fields.len()
                    &&& slots[pos[k]] is Some
                    &&& preds[k] == fields[pos[k]].name@ + " = "@ + placeholder(style, (k + 1) as nat)
                    &&& fetch_params(slots)[k] == slots[pos[k]]->0
                }
            &&& forall|a: int, b: int| 0 <= a < b < pos.len() ==> #[trigger] pos[a] < #[trigger] pos[b]
            &&& forall|i: int| 0 <= i < slots.len() && (#[trigger] slots[i]) is Some ==> pos.contains(i)
        }),
{
    let flags = present_flags(slots);
    lemma_selected_bounds(flags);
    assert forall|i: int| 0 <= i < slots.len() && (#[trigger] slots[i]) is Some implies selected(
        flags,
    ).contains(i) by {
        assert(flags[i]);
    }
}

/// An insert neither names nor binds an autoincrement field, and names and
/// binds every other field, in declaration order.
pub proof fn insert_skips_autoincrement(fields: Seq<Field>, record: Seq<Value>)
    requires
        record.len() == fields.len(),
    ensures
        ({
            let pos = selected(insert_flags(fields));
            &&& insert_params(fields, record).len() == pos.len()
            &&& forall|k: int|
                0 <= k < pos.len() ==> {
                    &&& 0 <= #[trigger] pos[k] < fields.len()
                    &&& !(fields[pos[k]].role is PrimaryAutoincrement)
                    &&& insert_params(fields, record)[k] == record[pos[k]]
                }
            &&& forall|a: int, b: int| 0 <= a < b < pos.len() ==> #[trigger] pos[a] < #[trigger] pos[b]
            &&& forall|i: int|
                0 <= i < fields.len() && !((#[trigger] fields[i]).role is PrimaryAutoincrement)
                    ==> pos.contains(i)
        }),
{
    let flags = insert_flags(fields);
    lemma_selected_bounds(flags);
    assert forall|i: int|
        0 <= i < fields.len() && !((#[trigger] fields[i]).role is PrimaryAutoincrement) implies selected(
        flags,
    ).contains(i) by {
        assert(flags[i]);
    }
}

/// An update's condition holds exactly the primary fields, or the first field
/// alone where none is primary; its assignments hold exactly the other fields.
pub proof fn update_splits_key(fields: Seq<Field>)
    requires
        fields.len() > 0,
    ensures
        ({
            let set_pos = selected(set_flags(fields));
            let key_pos = selected(key_flags(fields));
            &&& forall|k: int|
                0 <= k < key_pos.len() ==> 0 <= #[trigger] key_pos[k] < fields.len()
                    && is_key_at(fields, key_pos[k])
            &&& forall|k: int|
                0 <= k < set_pos.len() ==> 0 <= #[trigger] set_pos[k] < fields.len()
                    && !is_key_at(fields, set_pos[k])
            &&& forall|i: int|
                0 <= i < fields.len() ==> (#[trigger] is_key_at(fields, i) ==> key_pos.contains(i))
                    && (!is_key_at(fields, i) ==> set_pos.contains(i))
            &&& has_primary(fields) ==> forall|i: int|
                0 <= i < fields.len() ==> (is_key_at(fields, i) <==> role_is_primary(
                    #[trigger] fields[i].role,
                ))
            &&& !has_primary(fields) ==> key_pos == seq![0int]
        }),
{
    let sf = set_flags(fields);
    let kf = key_flags(fields);
    lemma_selected_bounds(sf);
    lemma_selected_bounds(kf);
    assert forall|i: int| 0 <= i < fields.len() implies (#[trigger] is_key_at(fields, i)
        ==> selected(kf).contains(i)) && (!is_key_at(fields, i) ==> selected(sf).contains(i)) by {
        assert(kf[i] == is_key_at(fields, i));
        assert(sf[i] == !is_key_at(fields, i));
    }
    if !has_primary(fields) {
        let kp = selected(kf);
        assert(is_key_at(fields, 0));
        assert(kp.contains(0));
        assert forall|k: int| 0 <= k < kp.len() implies kp[k] == 0 by {
            assert(kf[kp[k]]);
        }
        if kp.len() > 1 {
            assert(kp[0] < kp[1]);
        }
        assert(kp =~= seq![0int]);
    }
}

/// Adding a record to a table whose rows differ on their key fields, then
/// fetching with the record's key filter, matches that record and no other row;
/// the insert binds every field of the record in order, where none is autoincrement.
pub proof fn add_then_get(fields: Seq<Field>, record: Seq<Value>, rows: Seq<Seq<Value>>)
    requires
        fields.len() > 0,
        record.len() == fields.len(),
        forall|i: int| 0 <= i < fields.len() ==> !((#[trigger] fields[i]).role is PrimaryAutoincrement),
        rows.contains(record),
        forall|r: Seq<Value>| #[trigger] rows.contains(r) ==> r.len() == fields.len(),
        forall|a: Seq<Value>, b: Seq<Value>|
            #[trigger] rows.contains(a) && #[trigger] rows.contains(b) && (forall|i: int|
                0 <= i < fields.len() && is_key_at(fields, i) ==> a[i] == b[i]) ==> a == b,
    ensures
        insert_params(fields, record) == record,
        forall|r: Seq<Value>|
            #[trigger] rows.contains(r) ==> (row_matches(r, key_slots(fields, record)) <==> r == record),
{
    let flags = insert_flags(fields);
    lemma_selected_bounds(flags);
    let pos = selected(flags);
    assert forall|i: int| 0 <= i < fields.len() implies pos.contains(i) by {
        assert(flags[i]);
    }
    assert forall|k: int| 0 <= k < pos.len() implies pos[k] == k by {
        lemma_position_is_index(pos, fields.len() as int, k);
    }
    assert(pos.len() == fields.len()) by {
        if pos.len() < fields.len() {
            let last = fields.len() - 1;
            assert(pos.contains(last));
        }
    }
    assert(insert_params(fields, record) =~= record);
    let slots = key_slots(fields, record);
    assert forall|r: Seq<Value>| #[trigger] rows.contains(r) implies (row_matches(r, slots) <==> r
        == record) by {
        if row_matches(r, slots) {
            assert forall|i: int| 0 <= i < fields.len() && is_key_at(fields, i) implies r[i]
                == record[i] by {
                assert(slots[i] is Some);
            }
        }
    }
}

/// A strictly increasing sequence of positions below `n` that holds every one of
/// them holds `k` at place `k`.
proof fn lemma_position_is_index(pos: Seq<int>, n: int, k: int)
    requires
        0 <= k < pos.len() <= n,
        forall|j: int| 0 <= j < pos.len() ==> 0 <= #[trigger] pos[j] < n,
        forall|a: int, b: int| 0 <= a < b < pos.len() ==> #[trigger] pos[a] < #[trigger] pos[b],
        forall|i: int| 0 <= i < n ==> pos.contains(i),
    ensures
        pos[k] == k,
    decreases k,
{
    if k > 0 {
        lemma_position_is_index(pos, n, k - 1);
        assert(pos[k - 1] < pos[k]);
    }
    assert(pos.contains(k));
    let j = choose|j: int| 0 <= j < pos.len() && pos[j] == k;
    if j < k {
        lemma_lower_bound(pos, j);
    } else if j > k {
        assert(pos[k] < pos[j]);
    }
    lemma_lower_bound(pos, k);
}

proof fn lemma_lower_bound(pos: Seq<int>, k: int)
    requires
        0 <= k < pos.len(),
        forall|j: int| 0 <= j < pos.len() ==> 0 <= #[trigger] pos[j],
        forall|a: int, b: int| 0 <= a < b < pos.len() ==> #[trigger] pos[a] < #[trigger] pos[b],
    ensures
        pos[k] >= k,
    decreases k,
{
    if k > 0 {
        lemma_lower_bound(pos, k - 1);
        assert(pos[k - 1] < pos[k]);
    }
}

/// A fetch with every slot absent has no predicate and no parameter: its
/// statement depends on the table alone, so against an unchanged store it
/// returns the same rows each time.
pub proof fn unfiltered_fetch_is_constant(
    table: Seq<char>,
    fields: Seq<Field>,
    slots: Seq<Option<Value>>,
    style: PlaceholderStyle,
)
    requires
        forall|i: int| 0 <= i < slots.len() ==> (#[trigger] slots[i]) is None,
    ensures
        fetch_sql(table, fields, slots, style) == "SELECT * FROM "@ + table + " WHERE TRUE"@,
        fetch_params(slots) == Seq::<Value>::empty(),
{
    let flags = present_flags(slots);
    lemma_selected_bounds(flags);
    let pos = selected(flags);
    if pos.len() > 0 {
        assert(flags[pos[0]]);
    }
    assert(fetch_sql(table, fields, slots, style) =~= "SELECT * FROM "@ + table + " WHERE TRUE"@);
    assert(fetch_params(slots) =~= Seq::<Value>::empty());
}

} // verus!
