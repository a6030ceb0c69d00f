use vstd::prelude::*;
use vstd::string::*;
use crate::schema::{has_primary, is_key_at, names_of, role_is_primary, Field, KeyRole, Schema};
use crate::sqltext::{
    clause, clauses, join, lemma_join_step, lemma_selected_bounds, lemma_selected_complement, lemma_selected_prefix, lemma_selected_step, pick,
    placeholder, push_placeholder, selected, ClauseForm, PlaceholderStyle,
};
use crate::value::Value;

verus! {

/// SQL text with the values bound to its placeholders, in placeholder order.
#[derive(Debug, Clone)]
pub struct BuiltStatement {
    pub sql: String,
    pub params: Vec<Value>,
}

/// A partial record: a slot per field of a schema, each absent or holding a
/// value the field must equal.
#[derive(Debug, Clone)]
pub struct Filter {
    pub slots: Vec<Option<Value>>,
}

pub open spec fn present_flags(slots: Seq<Option<Value>>) -> Seq<bool> {
    Seq::new(slots.len(), |i: int| slots[i] is Some)
}

pub open spec fn insert_flags(fields: Seq<Field>) -> Seq<bool> {
    Seq::new(fields.len(), |i: int| !(fields[i].role is PrimaryAutoincrement))
}

pub open spec fn key_flags(fields: Seq<Field>) -> Seq<bool> {
    Seq::new(fields.len(), |i: int| is_key_at(fields, i))
}

pub open spec fn set_flags(fields: Seq<Field>) -> Seq<bool> {
    Seq::new(fields.len(), |i: int| !is_key_at(fields, i))
}

/// Appends the clauses of the selected fields, `sep` between each two, and
/// returns how many there were.
fn push_clauses(
    out: &mut String,
    schema: &Schema,
    flags: &Vec<bool>,
    form: ClauseForm,
    style: PlaceholderStyle,
    start: usize,
    sep: &str,
) -> (count: usize)
    requires
        flags@.len() == schema.len_spec(),
        start + selected(flags@).len() <= usize::MAX,
    ensures
        final(out)@ == old(out)@ + join(
            clauses(form, schema.names(), selected(flags@), style, start as nat),
            sep@,
        ),
        count == selected(flags@).len(),
{
    let ghost base = out@;
    let n = schema.len();
    let mut count: usize = 0;
    let mut i: usize = 0;
    while i < n
        invariant
            n == schema.len_spec(),
            n == flags@.len(),
            start + selected(flags@).len() <= usize::MAX,
            i <= n,
            count == selected(flags@.take(i as int)).len(),
            count <= i,
            out@ == base + join(
                clauses(form, schema.names(), selected(flags@.take(i as int)), style, start as nat),
                sep@,
            ),
        decreases n - i,
    {
        proof {
            lemma_selected_step(flags@, i as int);
            lemma_selected_bounds(flags@.take(i as int));
            lemma_selected_prefix(flags@, i + 1);
        }
        if flags[i] {
            let ghost pos = selected(flags@.take(i as int));
            let ghost prev = clauses(form, schema.names(), pos, style, start as nat);
            let ghost item = clause(form, schema.names()[i as int], style, (start + count) as nat);
            proof {
                assert(clauses(form, schema.names(), pos.push(i as int), style, start as nat)
                    =~= prev.push(item));
                lemma_join_step(prev, item, sep@);
            }
            if count > 0 {
                out.append(sep);
            }
            let name = &schema.field(i).name;
            match form {
                ClauseForm::Column => {
                    out.append(name.as_str());
                },
                ClauseForm::Slot => {
                    push_placeholder(out, style, start + count);
                },
                ClauseForm::Assign => {
                    out.append(name.as_str());
                    out.append(" = ");
                    push_placeholder(out, style, start + count);
                },
            }
            assert(out@ =~= base + join(prev.push(item), sep@));
            count = count + 1;
        }
        i = i + 1;
    }
    assert(flags@.take(n as int) =~= flags@);
    count
}

/// The SQL text of a fetch: one `AND name = placeholder` per present slot, in
/// field order, after a condition that always holds.
pub open spec fn fetch_sql(
    table: Seq<char>,
    fields: Seq<Field>,
    slots: Seq<Option<Value>>,
    style: PlaceholderStyle,
) -> Seq<char> {
    let preds = clauses(ClauseForm::Assign, names_of(fields), selected(present_flags(slots)), style, 1);
    "SELECT * FROM "@ + table + " WHERE TRUE"@ + (if preds.len() == 0 {
        Seq::empty()
    } else {
        " AND "@ + join(preds, " AND "@)
    })
}

/// The values of the present slots, in field order.
pub open spec fn fetch_params(slots: Seq<Option<Value>>) -> Seq<Value> {
    let pos = selected(present_flags(slots));
    Seq::new(pos.len(), |k: int| slots[pos[k]]->0)
}

/// The SQL text of an insert: every field but an autoincrement one, as a column
/// and a placeholder.
pub open spec fn insert_sql(table: Seq<char>, fields: Seq<Field>, style: PlaceholderStyle) -> Seq<
    char,
> {
    let pos = selected(insert_flags(fields));
    "INSERT INTO "@ + table + " ("@ + join(
        clauses(ClauseForm::Column, names_of(fields), pos, style, 1),
        ", "@,
    ) + ") VALUES ("@ + join(clauses(ClauseForm::Slot, names_of(fields), pos, style, 1), ", "@)
        + ");"@
}

pub open spec fn insert_params(fields: Seq<Field>, record: Seq<Value>) -> Seq<Value> {
    pick(record, selected(insert_flags(fields)))
}

/// The SQL text of an update: the non-key fields set, the key fields ANDed in
/// the condition, the parameters numbered through both.
pub open spec fn update_sql(table: Seq<char>, fields: Seq<Field>, style: PlaceholderStyle) -> Seq<
    char,
> {
    let set_pos = selected(set_flags(fields));
    let key_pos = selected(key_flags(fields));
    "UPDATE "@ + table + " SET "@ + join(
        clauses(ClauseForm::Assign, names_of(fields), set_pos, style, 1),
        ", "@,
    ) + " WHERE "@ + join(
        clauses(ClauseForm::Assign, names_of(fields), key_pos, style, 1 + set_pos.len()),
        " AND "@,
    ) + ";"@
}

/// The values set, then the key values, each in field order.
pub open spec fn update_params(fields: Seq<Field>, record: Seq<Value>) -> Seq<Value> {
    pick(record, selected(set_flags(fields))) + pick(record, selected(key_flags(fields)))
}

/// The SQL text of a delete, addressed by the first field.
pub open spec fn delete_sql(table: Seq<char>, fields: Seq<Field>, style: PlaceholderStyle) -> Seq<
    char,
> {
    "DELETE FROM "@ + table + " WHERE "@ + fields[0].name@ + " = "@ + placeholder(style, 1)
}

impl Filter {
    /// A filter with every slot absent: it matches every row.
    pub fn absent(n: usize) -> (r: Filter)
        ensures
            r.slots@.len() == n,
            forall|i: int| 0 <= i < n ==> #[trigger] r.slots@[i] is None,
    {
        let mut slots: Vec<Option<Value>> = Vec::new();
        let mut i: usize = 0;
        while i < n
            invariant
                i <= n,
                slots@.len() == i,
                forall|j: int| 0 <= j < i ==> #[trigger] slots@[j] is None,
            decreases n - i,
        {
            slots.push(None);
            i = i + 1;
        }
        Filter { slots }
    }

    /// Requires field `i` to equal `v`.
    pub fn set(&mut self, i: usize, v: Value)
        requires
            i < old(self).slots@.len(),
        ensures
            final(self).slots@ == old(self).slots@.update(i as int, Some(v)),
    {
        self.slots.set(i, Some(v));
    }
}

fn filter_flags(filter: &Filter) -> (r: Vec<bool>)
    ensures
        r@ == present_flags(filter.slots@),
{
    let mut r: Vec<bool> = Vec::new();
    let mut i: usize = 0;
    while i < filter.slots.len()
        invariant
            i <= filter.slots@.len(),
            r@ == present_flags(filter.slots@).take(i as int),
        decreases filter.slots@.len() - i,
    {
        r.push(filter.slots[i].is_some());
        i = i + 1;
        assert(r@ =~= present_flags(filter.slots@).take(i as int));
    }
    assert(r@ =~= present_flags(filter.slots@));
    r
}

fn insert_mask(schema: &Schema) -> (r: Vec<bool>)
    ensures
        r@ == insert_flags(schema.fields_view()),
{
    let mut r: Vec<bool> = Vec::new();
    let mut i: usize = 0;
    while i < schema.len()
        invariant
            i <= schema.len_spec(),
            r@ == insert_flags(schema.fields_view()).take(i as int),
        decreases schema.len_spec() - i,
    {
        let keep = match schema.field(i).role {
            KeyRole::PrimaryAutoincrement => false,
            _ => true,
        };
        r.push(keep);
        i = i + 1;
        assert(r@ =~= insert_flags(schema.fields_view()).take(i as int));
    }
    assert(r@ =~= insert_flags(schema.fields_view()));
    r
}

fn schema_has_primary(schema: &Schema) -> (r: bool)
    ensures
        r == has_primary(schema.fields_view()),
{
    let mut i: usize = 0;
    while i < schema.len()
        invariant
            i <= schema.len_spec(),
            forall|j: int| 0 <= j < i ==> !role_is_primary(#[trigger] schema.fields_view()[j].role),
        decreases schema.len_spec() - i,
    {
        match schema.field(i).role {
            KeyRole::Plain => {},
            _ => {
                return true;
            },
        }
        i = i + 1;
    }
    false
}

/// The key flags when `is_set` is false, their negation when it is true.
fn key_mask(schema: &Schema, is_set: bool) -> (r: Vec<bool>)
    ensures
        r@ == (if is_set {
            set_flags(schema.fields_view())
        } else {
            key_flags(schema.fields_view())
        }),
{
    let primary = schema_has_primary(schema);
    let ghost want = if is_set {
        set_flags(schema.fields_view())
    } else {
        key_flags(schema.fields_view())
    };
    let mut r: Vec<bool> = Vec::new();
    let mut i: usize = 0;
    while i < schema.len()
        invariant
            i <= schema.len_spec(),
            primary == has_primary(schema.fields_view()),
            want == (if is_set {
                set_flags(schema.fields_view())
            } else {
                key_flags(schema.fields_view())
            }),
            r@ == want.take(i as int),
        decreases schema.len_spec() - i,
    {
        let key = if primary {
            match schema.field(i).role {
                KeyRole::Plain => false,
                _ => true,
            }
        } else {
            i == 0
        };
        r.push(key != is_set);
        i = i + 1;
        assert(r@ =~= want.take(i as int));
    }
    assert(r@ =~= want);
    r
}

/// The values at the flagged positions, in order.
fn pick_values(vals: &Vec<Value>, flags: &Vec<bool>) -> (r: Vec<Value>)
    requires
        vals@.len() == flags@.len(),
    ensures
        r@ == pick(vals@, selected(flags@)),
{
    let mut r: Vec<Value> = Vec::new();
    let mut i: usize = 0;
    while i < vals.len()
        invariant
            vals@.len() == flags@.len(),
            i <= vals@.len(),
            r@ == pick(vals@, selected(flags@.take(i as int))),
        decreases vals@.len() - i,
    {
        proof {
            lemma_selected_step(flags@, i as int);
        }
        if flags[i] {
            r.push(vals[i].duplicate());
        }
        assert(r@ =~= pick(vals@, selected(flags@.take(i + 1))));
        i = i + 1;
    }
    assert(flags@.take(vals@.len() as int) =~= flags@);
    r
}

fn present_values(filter: &Filter) -> (r: Vec<Value>)
    ensures
        r@ == fetch_params(filter.slots@),
{
    let ghost flags = present_flags(filter.slots@);
    let mut r: Vec<Value> = Vec::new();
    let mut i: usize = 0;
    while i < filter.slots.len()
        invariant
            flags == present_flags(filter.slots@),
            i <= filter.slots@.len(),
            r@ == Seq::new(
                selected(flags.take(i as int)).len(),
                |k: int| filter.slots@[selected(flags.take(i as int))[k]]->0,
            ),
        decreases filter.slots@.len() - i,
    {
        proof {
            lemma_selected_step(flags, i as int);
        }
        match &filter.slots[i] {
            Some(v) => {
                r.push(v.duplicate());
            },
            None => {},
        }
        assert(r@ =~= Seq::new(
            selected(flags.take(i + 1)).len(),
            |k: int| filter.slots@[selected(flags.take(i + 1))[k]]->0,
        ));
        i = i + 1;
    }
    assert(flags.take(filter.slots@.len() as int) =~= flags);
    r
}

/// Builds the statement that fetches the rows matching `filter`.
pub fn build_fetch(schema: &Schema, filter: &Filter, style: PlaceholderStyle) -> (r: BuiltStatement)
    requires
        filter.slots@.len() == schema.len_spec(),
        schema.len_spec() < usize::MAX,
    ensures
        r.sql@ == fetch_sql(schema.table_view(), schema.fields_view(), filter.slots@, style),
        r.params@ == fetch_params(filter.slots@),
{
    let flags = filter_flags(filter);
    proof {
        lemma_selected_bounds(flags@);
    }
    let mut sql = "SELECT * FROM ".to_owned();
    sql.append(schema.table().as_str());
    sql.append(" WHERE TRUE");
    let mut tail = String::new();
    let count = push_clauses(&mut tail, schema, &flags, ClauseForm::Assign, style, 1, " AND ");
    if count > 0 {
        sql.append(" AND ");
        sql.append(tail.as_str());
    }
    assert(sql@ =~= fetch_sql(schema.table_view(), schema.fields_view(), filter.slots@, style));
    BuiltStatement { sql, params: present_values(filter) }
}

/// Builds the statement that inserts `record`; an autoincrement field is left
/// for the store to assign.
pub fn build_insert(schema: &Schema, record: &Vec<Value>, style: PlaceholderStyle) -> (r: BuiltStatement)
    requires
        record@.len() == schema.len_spec(),
        schema.len_spec() < usize::MAX,
    ensures
        r.sql@ == insert_sql(schema.table_view(), schema.fields_view(), style),
        r.params@ == insert_params(schema.fields_view(), record@),
{
    let flags = insert_mask(schema);
    proof {
        lemma_selected_bounds(flags@);
    }
    let mut sql = "INSERT INTO ".to_owned();
    sql.append(schema.table().as_str());
    sql.append(" (");
    push_clauses(&mut sql, schema, &flags, ClauseForm::Column, style, 1, ", ");
    sql.append(") VALUES (");
    push_clauses(&mut sql, schema, &flags, ClauseForm::Slot, style, 1, ", ");
    sql.append(");");
    assert(sql@ =~= insert_sql(schema.table_view(), schema.fields_view(), style));
    BuiltStatement { sql, params: pick_values(record, &flags) }
}

/// Builds the statement that writes `record` over the row with the same key.
/// `None` where every field is a key field, so there is nothing to set.
pub fn build_update(schema: &Schema, record: &Vec<Value>, style: PlaceholderStyle) -> (r: Option<
    BuiltStatement,
>)
    requires
        record@.len() == schema.len_spec(),
        schema.len_spec() < usize::MAX,
    ensures
        r is None <==> forall|i: int|
            0 <= i < schema.len_spec() ==> #[trigger] is_key_at(schema.fields_view(), i),
        r matches Some(st) ==> st.sql@ == update_sql(schema.table_view(), schema.fields_view(), style)
            && st.params@ == update_params(schema.fields_view(), record@),
{
    let set = key_mask(schema, true);
    let keys = key_mask(schema, false);
    proof {
        lemma_selected_bounds(set@);
        lemma_selected_complement(set@, keys@);
    }
    let mut sql = "UPDATE ".to_owned();
    sql.append(schema.table().as_str());
    sql.append(" SET ");
    let n_set = push_clauses(&mut sql, schema, &set, ClauseForm::Assign, style, 1, ", ");
    if n_set == 0 {
        assert forall|i: int| 0 <= i < schema.len_spec() implies #[trigger] is_key_at(
            schema.fields_view(),
            i,
        ) by {
            if !is_key_at(schema.fields_view(), i) {
                assert(set@[i]);
                assert(selected(set@).contains(i));
            }
        }
        return None;
    }
    assert(selected(set@)[0] < schema.len_spec());
    assert(!is_key_at(schema.fields_view(), selected(set@)[0]));
    sql.append(" WHERE ");
    push_clauses(&mut sql, schema, &keys, ClauseForm::Assign, style, 1 + n_set, " AND ");
    sql.append(";");
    assert(sql@ =~= update_sql(schema.table_view(), schema.fields_view(), style));
    let mut params = pick_values(record, &set);
    let mut key_params = pick_values(record, &keys);
    params.append(&mut key_params);
    Some(BuiltStatement { sql, params })
}

/// Builds the statement that deletes the row whose first field equals the
/// record's first value.
pub fn build_delete(schema: &Schema, record: &Vec<Value>, style: PlaceholderStyle) -> (r: BuiltStatement)
    requires
        schema.wf(),
        record@.len() == schema.len_spec(),
    ensures
        r.sql@ == delete_sql(schema.table_view(), schema.fields_view(), style),
        r.params@ == seq![record@[0]],
{
    let mut sql = "DELETE FROM ".to_owned();
    sql.append(schema.table().as_str());
    sql.append(" WHERE ");
    sql.append(schema.field(0).name.as_str());
    sql.append(" = ");
    push_placeholder(&mut sql, style, 1);
    assert(sql@ =~= delete_sql(schema.table_view(), schema.fields_view(), style));
    let mut params: Vec<Value> = Vec::new();
    params.push(record[0].duplicate());
    assert(params@ =~= seq![record@[0]]);
    BuiltStatement { sql, params }
}

/// The slots that pin a record down by its key: the key fields' values, every
/// other slot absent.
pub open spec fn key_slots(fields: Seq<Field>, record: Seq<Value>) -> Seq<Option<Value>> {
    Seq::new(
        fields.len(),
        |i: int|
            if is_key_at(fields, i) {
                Some(record[i])
            } else {
                None
            },
    )
}

/// Whether a row meets every present slot of a filter.
pub open spec fn row_matches(row: Seq<Value>, slots: Seq<Option<Value>>) -> bool {
    forall|i: int| 0 <= i < slots.len() && (#[trigger] slots[i]) is Some ==> row[i] == slots[i]->0
}

/// The filter that fetches `record` back by its key fields.
pub fn key_filter(schema: &Schema, record: &Vec<Value>) -> (r: Filter)
    requires
        record@.len() == schema.len_spec(),
    ensures
        r.slots@ == key_slots(schema.fields_view(), record@),
{
    let keys = key_mask(schema, false);
    let mut slots: Vec<Option<Value>> = Vec::new();
    let mut i: usize = 0;
    while i < record.len()
        invariant
            record@.len() == schema.len_spec(),
            keys@ == key_flags(schema.fields_view()),
            i <= record@.len(),
            slots@ == key_slots(schema.fields_view(), record@).take(i as int),
        decreases record@.len() - i,
    {
        if keys[i] {
            slots.push(Some(record[i].duplicate()));
        } else {
            slots.push(None);
        }
        i = i + 1;
        assert(slots@ =~= key_slots(schema.fields_view(), record@).take(i as int));
    }
    assert(slots@ =~= key_slots(schema.fields_view(), record@));
    Filter { slots }
}

} // verus!
