use vstd::prelude::*;
use vstd::string::*;

verus! {

/// How a field takes part in addressing a record.
#[derive(Debug, Clone, Copy, PartialEq, Eq)]
pub enum KeyRole {
    Plain,
    Primary,
    PrimaryAutoincrement,
}

/// The kind of value a field holds.
#[derive(Debug, Clone, Copy, PartialEq, Eq)]
pub enum ValueKind {
    Integer,
    Text,
}

/// One named, typed column of a record type.
#[derive(Debug, Clone)]
pub struct Field {
    pub name: String,
    pub kind: ValueKind,
    pub nullable: bool,
    pub role: KeyRole,
}

/// Why a record type cannot be turned into a schema.
#[derive(Debug, Clone, Copy, PartialEq, Eq)]
pub enum DefinitionError {
    InvalidTableName,
    NoFields,
    InvalidFieldName(usize),
    DuplicateField(usize),
    MissingKey,
    UnknownKeyArgument(usize),
}

pub open spec fn is_ident_start(c: char) -> bool {
    ('a' <= c && c <= 'z') || ('A' <= c && c <= 'Z') || c == '_'
}

pub open spec fn is_ident_char(c: char) -> bool {
    is_ident_start(c) || ('0' <= c && c <= '9')
}

/// A name that may stand unquoted in SQL text: a letter or `_`, then letters, digits or `_`.
pub open spec fn is_identifier(s: Seq<char>) -> bool {
    &&& s.len() > 0
    &&& is_ident_start(s[0])
    &&& forall|i: int| 0 <= i < s.len() ==> is_ident_char(#[trigger] s[i])
}

pub open spec fn role_is_primary(r: KeyRole) -> bool {
    r is Primary || r is PrimaryAutoincrement
}

pub open spec fn names_of(fields: Seq<Field>) -> Seq<Seq<char>> {
    Seq::new(fields.len(), |i: int| fields[i].name@)
}

pub open spec fn has_primary(fields: Seq<Field>) -> bool {
    exists|i: int| 0 <= i < fields.len() && role_is_primary(#[trigger] fields[i].role)
}

pub open spec fn names_valid(fields: Seq<Field>) -> bool {
    forall|i: int| 0 <= i < fields.len() ==> is_identifier(#[trigger] fields[i].name@)
}

pub open spec fn names_distinct(fields: Seq<Field>) -> bool {
    forall|i: int, j: int|
        0 <= i < j < fields.len() ==> #[trigger] fields[i].name@ != #[trigger] fields[j].name@
}

/// Everything a record type must satisfy to become a schema.
pub open spec fn valid_definition(table: Seq<char>, fields: Seq<Field>, implicit_key: bool) -> bool {
    &&& is_identifier(table)
    &&& fields.len() > 0
    &&& names_valid(fields)
    &&& names_distinct(fields)
    &&& (has_primary(fields) || implicit_key)
}

/// Whether field `i` addresses the record in update: the primary fields, or,
/// where none is marked, the first field alone.
pub open spec fn is_key_at(fields: Seq<Field>, i: int) -> bool {
    if has_primary(fields) {
        role_is_primary(fields[i].role)
    } else {
        i == 0
    }
}

/// The integer type names a field may be declared with.
pub open spec fn is_integer_type_name(n: Seq<char>) -> bool {
    n == "i8"@ || n == "i16"@ || n == "i32"@ || n == "i64"@ || n == "u8"@ || n == "u16"@ || n
        == "u32"@ || n == "u64"@ || n == "isize"@ || n == "usize"@
}

/// The kind of value stored for a field declared with the type named `n`.
pub open spec fn kind_of_type_name(n: Seq<char>) -> Option<ValueKind> {
    if is_integer_type_name(n) {
        Some(ValueKind::Integer)
    } else if n == "String"@ {
        Some(ValueKind::Text)
    } else {
        None
    }
}

/// The kind of value a field declared with the type named `name` holds:
/// integers of every width, or text; `None` for any other type.
pub fn kind_for_type(name: &str) -> (r: Option<ValueKind>)
    ensures
        r == kind_of_type_name(name@),
{
    let n = name.to_owned();
    let integer_names = ["i8", "i16", "i32", "i64", "u8", "u16", "u32", "u64", "isize", "usize"];
    let mut i: usize = 0;
    while i < 10
        invariant
            n@ == name@,
            forall|j: int| 0 <= j < i ==> n@ != (#[trigger] integer_names@[j])@,
            integer_names@ == seq!["i8", "i16", "i32", "i64", "u8", "u16", "u32", "u64", "isize", "usize"],
        decreases 10 - i,
    {
        if n == integer_names[i].to_owned() {
            return Some(ValueKind::Integer);
        }
        i = i + 1;
    }
    assert(!is_integer_type_name(name@)) by {
        assert(n@ != integer_names@[0]@);
        assert(n@ != integer_names@[1]@);
        assert(n@ != integer_names@[2]@);
        assert(n@ != integer_names@[3]@);
        assert(n@ != integer_names@[4]@);
        assert(n@ != integer_names@[5]@);
        assert(n@ != integer_names@[6]@);
        assert(n@ != integer_names@[7]@);
        assert(n@ != integer_names@[8]@);
        assert(n@ != integer_names@[9]@);
    }
    if n == "String".to_owned() {
        Some(ValueKind::Text)
    } else {
        None
    }
}

fn is_ident_start_char(c: char) -> (r: bool)
    ensures
        r == is_ident_start(c),
{
    ('a' <= c && c <= 'z') || ('A' <= c && c <= 'Z') || c == '_'
}

fn is_ident_body_char(c: char) -> (r: bool)
    ensures
        r == is_ident_char(c),
{
    is_ident_start_char(c) || ('0' <= c && c <= '9')
}

/// Whether `s` may stand unquoted as a table or column name.
pub fn check_identifier(s: &str) -> (r: bool)
    ensures
        r == is_identifier(s@),
{
    let n = s.unicode_len();
    if n == 0 {
        return false;
    }
    if !is_ident_start_char(s.get_char(0)) {
        return false;
    }
    let mut i: usize = 0;
    while i < n
        invariant
            n == s@.len(),
            i <= n,
            forall|j: int| 0 <= j < i ==> is_ident_char(#[trigger] s@[j]),
        decreases n - i,
    {
        if !is_ident_body_char(s.get_char(i)) {
            return false;
        }
        i = i + 1;
    }
    true
}




/// Whether `e` is the error owed for this definition: the checks run in the
/// order table name, field count, field names, duplicates, key, and the first
/// failing one is reported with the first field that fails it.
pub open spec fn explains(
    table: Seq<char>,
    fields: Seq<Field>,
    implicit_key: bool,
    e: DefinitionError,
) -> bool {
    match e {
        DefinitionError::InvalidTableName => !is_identifier(table),
        DefinitionError::NoFields => is_identifier(table) && fields.len() == 0,
        DefinitionError::InvalidFieldName(i) => {
            &&& is_identifier(table)
            &&& i < fields.len()
            &&& !is_identifier(fields[i as int].name@)
            &&& forall|j: int| 0 <= j < i ==> is_identifier(#[trigger] fields[j].name@)
        },
        DefinitionError::DuplicateField(j) => {
            &&& is_identifier(table)
            &&& names_valid(fields)
            &&& j < fields.len()
            &&& exists|i: int| 0 <= i < j && #[trigger] fields[i].name@ == fields[j as int].name@
            &&& names_distinct(fields.take(j as int))
        },
        DefinitionError::MissingKey => {
            &&& is_identifier(table)
            &&& fields.len() > 0
            &&& names_valid(fields)
            &&& names_distinct(fields)
            &&& !has_primary(fields)
            &&& !implicit_key
        },
        DefinitionError::UnknownKeyArgument(_) => false,
    }
}

/// `i` is the first declaration whose attributes nest an unknown name.
pub open spec fn first_unknown(decls: Seq<FieldDecl>, i: int) -> bool {
    &&& 0 <= i < decls.len()
    &&& has_unknown_arg(decls[i].attrs@)
    &&& forall|j: int| 0 <= j < i ==> !has_unknown_arg(#[trigger] decls[j].attrs@)
}

/// The field that a declaration stands for, once its attributes are read.
pub open spec fn field_of(d: FieldDecl) -> Field {
    Field { name: d.name, kind: d.kind, nullable: d.nullable, role: role_from_attrs(d.attrs@) }
}

pub open spec fn fields_of(decls: Seq<FieldDecl>) -> Seq<Field> {
    Seq::new(decls.len(), |i: int| field_of(decls[i]))
}

/// One attribute written on a field of a record type: its path and the names nested in it.
#[derive(Debug, Clone)]
pub struct AttrDecl {
    pub path: String,
    pub args: Vec<String>,
}

/// A field as declared on a record type, before its attributes are read.
#[derive(Debug, Clone)]
pub struct FieldDecl {
    pub name: String,
    pub kind: ValueKind,
    pub nullable: bool,
    pub attrs: Vec<AttrDecl>,
}

pub open spec fn is_primary_attr(a: AttrDecl) -> bool {
    a.path@ == "primary"@
}

pub open spec fn is_autoincrement_arg(arg: String) -> bool {
    arg@ == "autoincrement"@
}

/// A `primary` attribute that nests a name other than `autoincrement`.
pub open spec fn has_unknown_arg(attrs: Seq<AttrDecl>) -> bool {
    exists|i: int, j: int|
        0 <= i < attrs.len() && is_primary_attr(attrs[i]) && 0 <= j < attrs[i].args@.len()
            && !is_autoincrement_arg(#[trigger] attrs[i].args@[j])
}

pub open spec fn marks_primary(attrs: Seq<AttrDecl>) -> bool {
    exists|i: int| 0 <= i < attrs.len() && is_primary_attr(#[trigger] attrs[i])
}

pub open spec fn marks_autoincrement(attrs: Seq<AttrDecl>) -> bool {
    exists|i: int, j: int|
        0 <= i < attrs.len() && is_primary_attr(attrs[i]) && 0 <= j < attrs[i].args@.len()
            && is_autoincrement_arg(#[trigger] attrs[i].args@[j])
}

/// The key role that a field's attributes give it; attributes with other paths are ignored.
pub open spec fn role_from_attrs(attrs: Seq<AttrDecl>) -> KeyRole {
    if marks_autoincrement(attrs) {
        KeyRole::PrimaryAutoincrement
    } else if marks_primary(attrs) {
        KeyRole::Primary
    } else {
        KeyRole::Plain
    }
}

/// Reads the key role off a field's attributes: `primary` makes it a primary
/// field, `primary(autoincrement)` one whose value the store assigns. `None`
/// where a `primary` attribute nests any other name.
pub fn parse_field(decl: &FieldDecl) -> (r: Option<Field>)
    ensures
        r is None <==> has_unknown_arg(decl.attrs@),
        r matches Some(f) ==> f == field_of(*decl),
{
    let primary_word = "primary".to_owned();
    let auto_word = "autoincrement".to_owned();
    let attrs = &decl.attrs;
    let mut primary = false;
    let mut auto = false;
    let mut i: usize = 0;
    while i < attrs.len()
        invariant
            attrs@ == decl.attrs@,
            i <= attrs@.len(),
            primary_word@ == "primary"@,
            auto_word@ == "autoincrement"@,
            !has_unknown_arg(attrs@.take(i as int)),
            primary <==> marks_primary(attrs@.take(i as int)),
            auto <==> marks_autoincrement(attrs@.take(i as int)),
        decreases attrs@.len() - i,
    {
        let ghost before = attrs@.take(i as int);
        let ghost after = attrs@.take(i + 1);
        assert(after =~= before.push(attrs@[i as int]));
        let a = &attrs[i];
        if a.path == primary_word {
            primary = true;
            let mut k: usize = 0;
            while k < a.args.len()
                invariant
                    attrs@ == decl.attrs@,
                    i < attrs@.len(),
                    *a == attrs@[i as int],
                    is_primary_attr(*a),
                    k <= a.args@.len(),
                    auto_word@ == "autoincrement"@,
                    forall|m: int| 0 <= m < k ==> is_autoincrement_arg(#[trigger] a.args@[m]),
                    auto <==> (marks_autoincrement(before) || k > 0),
                decreases a.args@.len() - k,
            {
                if a.args[k] != auto_word {
                    assert(has_unknown_arg(attrs@)) by {
                        assert(!is_autoincrement_arg(attrs@[i as int].args@[k as int]));
                    }
                    assert(has_unknown_arg(decl.attrs@));
                    return None;
                }
                auto = true;
                k = k + 1;
            }
            assert(marks_autoincrement(after) <==> (marks_autoincrement(before) || k > 0)) by {
                if k > 0 {
                    assert(is_autoincrement_arg(after[i as int].args@[0]));
                }
                if marks_autoincrement(after) && !marks_autoincrement(before) {
                    let (x, y) = choose|x: int, y: int|
                        0 <= x < after.len() && is_primary_attr(after[x]) && 0 <= y
                            < after[x].args@.len() && is_autoincrement_arg(
                            #[trigger] after[x].args@[y],
                        );
                    if x < i {
                        assert(before[x] == after[x]);
                    }
                }
                if marks_autoincrement(before) {
                    let (x, y) = choose|x: int, y: int|
                        0 <= x < before.len() && is_primary_attr(before[x]) && 0 <= y
                            < before[x].args@.len() && is_autoincrement_arg(
                            #[trigger] before[x].args@[y],
                        );
                    assert(after[x] == before[x]);
                }
            }
            assert(!has_unknown_arg(after)) by {
                if has_unknown_arg(after) {
                    let (x, y) = choose|x: int, y: int|
                        0 <= x < after.len() && is_primary_attr(after[x]) && 0 <= y
                            < after[x].args@.len() && !is_autoincrement_arg(
                            #[trigger] after[x].args@[y],
                        );
                    if x < i {
                        assert(before[x] == after[x]);
                    }
                }
            }
            assert(marks_primary(after)) by {
                assert(is_primary_attr(after[i as int]));
            }
        } else {
            assert(!is_primary_attr(after[i as int]));
            assert(marks_autoincrement(after) == marks_autoincrement(before)) by {
                if marks_autoincrement(after) {
                    let (x, y) = choose|x: int, y: int|
                        0 <= x < after.len() && is_primary_attr(after[x]) && 0 <= y
                            < after[x].args@.len() && is_autoincrement_arg(
                            #[trigger] after[x].args@[y],
                        );
                    assert(before[x] == after[x]);
                }
                if marks_autoincrement(before) {
                    let (x, y) = choose|x: int, y: int|
                        0 <= x < before.len() && is_primary_attr(before[x]) && 0 <= y
                            < before[x].args@.len() && is_autoincrement_arg(
                            #[trigger] before[x].args@[y],
                        );
                    assert(after[x] == before[x]);
                }
            }
            assert(marks_primary(after) == marks_primary(before)) by {
                if marks_primary(after) {
                    let x = choose|x: int| 0 <= x < after.len() && is_primary_attr(#[trigger] after[x]);
                    assert(before[x] == after[x]);
                }
                if marks_primary(before) {
                    let x = choose|x: int| 0 <= x < before.len() && is_primary_attr(#[trigger] before[x]);
                    assert(after[x] == before[x]);
                }
            }
            assert(!has_unknown_arg(after)) by {
                if has_unknown_arg(after) {
                    let (x, y) = choose|x: int, y: int|
                        0 <= x < after.len() && is_primary_attr(after[x]) && 0 <= y
                            < after[x].args@.len() && !is_autoincrement_arg(
                            #[trigger] after[x].args@[y],
                        );
                    assert(before[x] == after[x]);
                }
            }
        }
        i = i + 1;
    }
    assert(attrs@.take(i as int) =~= attrs@);
    let role = if auto {
        KeyRole::PrimaryAutoincrement
    } else if primary {
        KeyRole::Primary
    } else {
        KeyRole::Plain
    };
    Some(Field { name: decl.name.clone(), kind: decl.kind, nullable: decl.nullable, role })
}

/// An ordered, validated description of one record type mapped to one table.
#[derive(Debug, Clone)]
pub struct Schema {
    table: String,
    fields: Vec<Field>,
    implicit_key: bool,
}

impl Schema {
    pub closed spec fn table_view(&self) -> Seq<char> {
        self.table@
    }

    pub closed spec fn fields_view(&self) -> Seq<Field> {
        self.fields@
    }

    pub closed spec fn implicit_key_view(&self) -> bool {
        self.implicit_key
    }

    pub open spec fn wf(&self) -> bool {
        valid_definition(self.table_view(), self.fields_view(), self.implicit_key_view())
    }

    pub open spec fn len_spec(&self) -> nat {
        self.fields_view().len()
    }

    pub open spec fn names(&self) -> Seq<Seq<char>> {
        names_of(self.fields_view())
    }

    /// Builds a schema. `implicit_key` allows a type with no primary field, whose
    /// first field then addresses records on update and delete.
    pub fn new(table: String, fields: Vec<Field>, implicit_key: bool) -> (r: Result<
        Schema,
        DefinitionError,
    >)
        ensures
            r is Ok <==> valid_definition(table@, fields@, implicit_key),
            r matches Ok(s) ==> s.table_view() == table@ && s.fields_view() == fields@
                && s.implicit_key_view() == implicit_key,
            r matches Err(e) ==> explains(table@, fields@, implicit_key, e),
    {
        if !check_identifier(table.as_str()) {
            return Err(DefinitionError::InvalidTableName);
        }
        let n = fields.len();
        if n == 0 {
            return Err(DefinitionError::NoFields);
        }
        let mut i: usize = 0;
        while i < n
            invariant
                n == fields@.len(),
                i <= n,
                is_identifier(table@),
                forall|j: int| 0 <= j < i ==> is_identifier(#[trigger] fields@[j].name@),
            decreases n - i,
        {
            if !check_identifier(fields[i].name.as_str()) {
                return Err(DefinitionError::InvalidFieldName(i));
            }
            i = i + 1;
        }
        let mut j: usize = 0;
        while j < n
            invariant
                n == fields@.len(),
                j <= n,
                is_identifier(table@),
                names_valid(fields@),
                names_distinct(fields@.take(j as int)),
            decreases n - j,
        {
            let mut k: usize = 0;
            while k < j
                invariant
                    n == fields@.len(),
                    k <= j < n,
                    is_identifier(table@),
                    names_valid(fields@),
                    names_distinct(fields@.take(j as int)),
                    forall|m: int| 0 <= m < k ==> #[trigger] fields@[m].name@ != fields@[j as int].name@,
                decreases j - k,
            {
                if fields[k].name == fields[j].name {
                    assert(fields@[k as int].name@ == fields@[j as int].name@);
                    return Err(DefinitionError::DuplicateField(j));
                }
                k = k + 1;
            }
            assert(names_distinct(fields@.take(j + 1))) by {
                assert forall|a: int, b: int| 0 <= a < b < j + 1 implies #[trigger] fields@.take(
                    j + 1,
                )[a].name@ != #[trigger] fields@.take(j + 1)[b].name@ by {
                    if b < j {
                        assert(fields@.take(j as int)[a] == fields@[a]);
                        assert(fields@.take(j as int)[b] == fields@[b]);
                    }
                }
            }
            j = j + 1;
        }
        assert(fields@.take(n as int) =~= fields@);
        let mut found = false;
        let mut p: usize = 0;
        while p < n
            invariant
                n == fields@.len(),
                p <= n,
                found <==> exists|m: int| 0 <= m < p && role_is_primary(#[trigger] fields@[m].role),
            decreases n - p,
        {
            match fields[p].role {
                KeyRole::Plain => {},
                _ => {
                    found = true;
                },
            }
            p = p + 1;
        }
        if !found && !implicit_key {
            return Err(DefinitionError::MissingKey);
        }
        Ok(Schema { table, fields, implicit_key })
    }

    /// Builds a schema from declared fields, reading each field's attributes first.
    pub fn from_declaration(table: String, decls: &Vec<FieldDecl>, implicit_key: bool) -> (r: Result<
        Schema,
        DefinitionError,
    >)
        ensures
            r matches Err(DefinitionError::UnknownKeyArgument(i)) ==> first_unknown(decls@, i as int),
            forall|i: int|
                #[trigger] first_unknown(decls@, i) ==> r == Err::<Schema, DefinitionError>(
                    DefinitionError::UnknownKeyArgument(i as usize),
                ),
            (forall|j: int| 0 <= j < decls@.len() ==> !has_unknown_arg(#[trigger] decls@[j].attrs@))
                ==> {
                &&& (r is Ok <==> valid_definition(table@, fields_of(decls@), implicit_key))
                &&& (r matches Err(e) ==> explains(table@, fields_of(decls@), implicit_key, e))
            },
            r matches Ok(s) ==> s.table_view() == table@ && s.fields_view() == fields_of(decls@)
                && s.implicit_key_view() == implicit_key,
    {
        let mut fields: Vec<Field> = Vec::new();
        let mut i: usize = 0;
        while i < decls.len()
            invariant
                i <= decls@.len(),
                fields@ == fields_of(decls@).take(i as int),
                forall|j: int| 0 <= j < i ==> !has_unknown_arg(#[trigger] decls@[j].attrs@),
            decreases decls@.len() - i,
        {
            match parse_field(&decls[i]) {
                Some(f) => {
                    fields.push(f);
                    assert(fields@ =~= fields_of(decls@).take(i + 1));
                },
                None => {
                    return Err(DefinitionError::UnknownKeyArgument(i));
                },
            }
            i = i + 1;
        }
        assert(fields@ =~= fields_of(decls@));
        Schema::new(table, fields, implicit_key)
    }

    pub fn len(&self) -> (r: usize)
        ensures
            r == self.len_spec(),
    {
        self.fields.len()
    }

    pub fn table(&self) -> (r: &String)
        ensures
            r@ == self.table_view(),
    {
        &self.table
    }

    pub fn field(&self, i: usize) -> (r: &Field)
        requires
            i < self.len_spec(),
        ensures
            *r == self.fields_view()[i as int],
    {
        &self.fields[i]
    }

    /// Whether a schema without primary fields was accepted, with its first field as key.
    pub fn implicit_key(&self) -> (r: bool)
        ensures
            r == self.implicit_key_view(),
    {
        self.implicit_key
    }
}

} // verus!
