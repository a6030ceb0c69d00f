use vstd::prelude::*;
use crate::schema::{is_ident_char, is_identifier, names_of, names_valid, Field};
use crate::sqltext::{
    clause, clauses, decimal, digit_text, join, lemma_selected_bounds, placeholder, selected,
    ClauseForm,
    PlaceholderStyle,
};
use crate::statement::{
    delete_sql, fetch_params, fetch_sql, insert_flags, insert_params, insert_sql, key_flags,
    present_flags, set_flags, update_params, update_sql,
};
use crate::value::Value;

verus! {

/// The number of `?` in a text.
pub open spec fn count_marks(s: Seq<char>) -> nat
    decreases s.len(),
{
    if s.len() == 0 {
        0
    } else {
        count_marks(s.drop_last()) + if s.last() == '?' {
            1nat
        } else {
            0nat
        }
    }
}

proof fn lemma_count_concat(a: Seq<char>, b: Seq<char>)
    ensures
        count_marks(a + b) == count_marks(a) + count_marks(b),
    decreases b.len(),
{
    if b.len() == 0 {
        assert(a + b =~= a);
    } else {
        assert((a + b).drop_last() =~= a + b.drop_last());
        lemma_count_concat(a, b.drop_last());
    }
}

proof fn lemma_ident_no_marks(s: Seq<char>)
    requires
        forall|i: int| 0 <= i < s.len() ==> is_ident_char(#[trigger] s[i]),
    ensures
        count_marks(s) == 0,
    decreases s.len(),
{
    if s.len() > 0 {
        let t = s.drop_last();
        assert forall|i: int| 0 <= i < t.len() implies is_ident_char(#[trigger] t[i]) by {
            assert(t[i] == s[i]);
        }
        lemma_ident_no_marks(t);
        assert(is_ident_char(s[s.len() - 1]));
    }
}

proof fn lemma_digit_no_marks(d: nat)
    requires
        d < 10,
    ensures
        count_marks(digit_text(d)) == 0,
{
    reveal_strlit("0123456789");
    let lit = "0123456789"@;
    assert(lit[d as int] != '?') by {
        if d == 0 {
        } else if d == 1 {
        } else if d == 2 {
        } else if d == 3 {
        } else if d == 4 {
        } else if d == 5 {
        } else if d == 6 {
        } else if d == 7 {
        } else if d == 8 {
        } else {
        }
    }
    assert(digit_text(d).drop_last().len() == 0);
    assert(digit_text(d).last() == lit[d as int]);
    reveal_with_fuel(count_marks, 2);
}

proof fn lemma_decimal_no_marks(n: nat)
    ensures
        count_marks(decimal(n)) == 0,
    decreases n,
{
    if n < 10 {
        lemma_digit_no_marks(n);
    } else {
        lemma_decimal_no_marks(n / 10);
        lemma_digit_no_marks(n % 10);
        lemma_count_concat(decimal(n / 10), digit_text(n % 10));
    }
}

proof fn lemma_placeholder_one_mark(style: PlaceholderStyle, k: nat)
    ensures
        count_marks(placeholder(style, k)) == 1,
{
    reveal_strlit("?");
    assert(count_marks("?"@) == 1) by {
        reveal_with_fuel(count_marks, 2);
    }
    if style is Numbered {
        lemma_decimal_no_marks(k);
        lemma_count_concat("?"@, decimal(k));
    }
}

/// How many `?` each clause of a form holds.
pub open spec fn marks_per_clause(form: ClauseForm) -> nat {
    match form {
        ClauseForm::Column => 0,
        ClauseForm::Slot => 1,
        ClauseForm::Assign => 1,
    }
}

proof fn lemma_clause_marks(form: ClauseForm, name: Seq<char>, style: PlaceholderStyle, k: nat)
    requires
        is_identifier(name),
    ensures
        count_marks(clause(form, name, style, k)) == marks_per_clause(form),
{
    lemma_ident_no_marks(name);
    lemma_placeholder_one_mark(style, k);
    reveal_strlit(" = ");
    assert(count_marks(" = "@) == 0) by {
        reveal_with_fuel(count_marks, 4);
    }
    lemma_count_concat(name, " = "@);
    lemma_count_concat(name + " = "@, placeholder(style, k));
}

proof fn lemma_join_marks(items: Seq<Seq<char>>, sep: Seq<char>, per: nat)
    requires
        count_marks(sep) == 0,
        forall|k: int| 0 <= k < items.len() ==> count_marks(#[trigger] items[k]) == per,
    ensures
        count_marks(join(items, sep)) == per * items.len(),
    decreases items.len(),
{
    if items.len() > 1 {
        let rest = items.drop_last();
        assert forall|k: int| 0 <= k < rest.len() implies count_marks(#[trigger] rest[k]) == per by {
            assert(rest[k] == items[k]);
        }
        lemma_join_marks(rest, sep, per);
        lemma_count_concat(join(rest, sep), sep);
        lemma_count_concat(join(rest, sep) + sep, items.last());
        assert(per * items.len() == per * rest.len() + per) by (nonlinear_arith)
            requires
                items.len() == rest.len() + 1,
        ;
    } else if items.len() == 1 {
        assert(per * items.len() == per) by (nonlinear_arith)
            requires
                items.len() == 1,
        ;
    }
}

proof fn lemma_clauses_marks(
    form: ClauseForm,
    fields: Seq<Field>,
    pos: Seq<int>,
    style: PlaceholderStyle,
    start: nat,
    sep: Seq<char>,
)
    requires
        names_valid(fields),
        count_marks(sep) == 0,
        forall|k: int| 0 <= k < pos.len() ==> 0 <= #[trigger] pos[k] < fields.len(),
    ensures
        count_marks(join(clauses(form, names_of(fields), pos, style, start), sep))
            == marks_per_clause(form) * pos.len(),
{
    let items = clauses(form, names_of(fields), pos, style, start);
    assert forall|k: int| 0 <= k < items.len() implies count_marks(#[trigger] items[k])
        == marks_per_clause(form) by {
        assert(is_identifier(fields[pos[k]].name@));
        lemma_clause_marks(form, fields[pos[k]].name@, style, (start + k) as nat);
    }
    lemma_join_marks(items, sep, marks_per_clause(form));
}

/// The fixed words of every statement hold no `?`.
proof fn lemma_fixed_words()
    ensures
        count_marks("SELECT * FROM "@) == 0,
        count_marks(" WHERE TRUE"@) == 0,
        count_marks(" AND "@) == 0,
        count_marks("INSERT INTO "@) == 0,
        count_marks(" ("@) == 0,
        count_marks(", "@) == 0,
        count_marks(") VALUES ("@) == 0,
        count_marks(");"@) == 0,
        count_marks("UPDATE "@) == 0,
        count_marks(" SET "@) == 0,
        count_marks(" WHERE "@) == 0,
        count_marks(";"@) == 0,
        count_marks("DELETE FROM "@) == 0,
        count_marks(" = "@) == 0,
{
    reveal_strlit("SELECT * FROM ");
    reveal_strlit(" WHERE TRUE");
    reveal_strlit(" AND ");
    reveal_strlit("INSERT INTO ");
    reveal_strlit(" (");
    reveal_strlit(", ");
    reveal_strlit(") VALUES (");
    reveal_strlit(");");
    reveal_strlit("UPDATE ");
    reveal_strlit(" SET ");
    reveal_strlit(" WHERE ");
    reveal_strlit(";");
    reveal_strlit("DELETE FROM ");
    reveal_strlit(" = ");
    reveal_with_fuel(count_marks, 15);
}

/// Every statement holds exactly as many placeholders as it binds parameters,
/// for any schema whose table and field names are valid.
pub proof fn placeholders_match_parameters(
    table: Seq<char>,
    fields: Seq<Field>,
    slots: Seq<Option<Value>>,
    record: Seq<Value>,
    style: PlaceholderStyle,
)
    requires
        is_identifier(table),
        fields.len() > 0,
        names_valid(fields),
        slots.len() == fields.len(),
        record.len() == fields.len(),
    ensures
        count_marks(fetch_sql(table, fields, slots, style)) == fetch_params(slots).len(),
        count_marks(insert_sql(table, fields, style)) == insert_params(fields, record).len(),
        count_marks(update_sql(table, fields, style)) == update_params(fields, record).len(),
        count_marks(delete_sql(table, fields, style)) == 1,
{
    lemma_fixed_words();
    lemma_ident_no_marks(table);
    let names = names_of(fields);
    // fetch
    let pf = present_flags(slots);
    lemma_selected_bounds(pf);
    let pos = selected(pf);
    let preds = clauses(ClauseForm::Assign, names, pos, style, 1);
    lemma_clauses_marks(ClauseForm::Assign, fields, pos, style, 1, " AND "@);
    let head = "SELECT * FROM "@ + table + " WHERE TRUE"@;
    lemma_count_concat("SELECT * FROM "@, table);
    lemma_count_concat("SELECT * FROM "@ + table, " WHERE TRUE"@);
    if preds.len() == 0 {
        assert(fetch_sql(table, fields, slots, style) =~= head);
    } else {
        lemma_count_concat(" AND "@, join(preds, " AND "@));
        lemma_count_concat(head, " AND "@ + join(preds, " AND "@));
    }
    // insert
    let inf = insert_flags(fields);
    lemma_selected_bounds(inf);
    let ip = selected(inf);
    lemma_clauses_marks(ClauseForm::Column, fields, ip, style, 1, ", "@);
    lemma_clauses_marks(ClauseForm::Slot, fields, ip, style, 1, ", "@);
    let cols = join(clauses(ClauseForm::Column, names, ip, style, 1), ", "@);
    let vals = join(clauses(ClauseForm::Slot, names, ip, style, 1), ", "@);
    lemma_count_concat("INSERT INTO "@, table);
    lemma_count_concat("INSERT INTO "@ + table, " ("@);
    lemma_count_concat("INSERT INTO "@ + table + " ("@, cols);
    lemma_count_concat("INSERT INTO "@ + table + " ("@ + cols, ") VALUES ("@);
    lemma_count_concat("INSERT INTO "@ + table + " ("@ + cols + ") VALUES ("@, vals);
    lemma_count_concat("INSERT INTO "@ + table + " ("@ + cols + ") VALUES ("@ + vals, ");"@);
    // update
    let sf = set_flags(fields);
    let kf = key_flags(fields);
    lemma_selected_bounds(sf);
    lemma_selected_bounds(kf);
    let sp = selected(sf);
    let kp = selected(kf);
    lemma_clauses_marks(ClauseForm::Assign, fields, sp, style, 1, ", "@);
    lemma_clauses_marks(ClauseForm::Assign, fields, kp, style, 1 + sp.len(), " AND "@);
    let sets = join(clauses(ClauseForm::Assign, names, sp, style, 1), ", "@);
    let keys = join(clauses(ClauseForm::Assign, names, kp, style, 1 + sp.len()), " AND "@);
    lemma_count_concat("UPDATE "@, table);
    lemma_count_concat("UPDATE "@ + table, " SET "@);
    lemma_count_concat("UPDATE "@ + table + " SET "@, sets);
    lemma_count_concat("UPDATE "@ + table + " SET "@ + sets, " WHERE "@);
    lemma_count_concat("UPDATE "@ + table + " SET "@ + sets + " WHERE "@, keys);
    lemma_count_concat("UPDATE "@ + table + " SET "@ + sets + " WHERE "@ + keys, ";"@);
    // delete
    let first = fields[0].name@;
    assert(is_identifier(first));
    lemma_ident_no_marks(first);
    lemma_placeholder_one_mark(style, 1);
    lemma_count_concat("DELETE FROM "@, table);
    lemma_count_concat("DELETE FROM "@ + table, " WHERE "@);
    lemma_count_concat("DELETE FROM "@ + table + " WHERE "@, first);
    lemma_count_concat("DELETE FROM "@ + table + " WHERE "@ + first, " = "@);
    lemma_count_concat("DELETE FROM "@ + table + " WHERE "@ + first + " = "@, placeholder(style, 1));
}

} // verus!
