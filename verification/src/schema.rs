//! The columns of the tables, and how an older database is brought up to date.

use vstd::prelude::*;

use crate::lookup;
use crate::lookup::Keyed;
use crate::text;

verus! {

/// A column of a table and how it is declared.
pub struct ColumnDefinition {
    pub table: &'static str,
    pub column: &'static str,
    pub definition: &'static str,
}

/// What a `ColumnDefinition` holds.
#[verifier::ext_equal]
pub struct ColumnDefinitionView {
    pub table: Seq<char>,
    pub column: Seq<char>,
    pub definition: Seq<char>,
}

impl View for ColumnDefinition {
    type V = ColumnDefinitionView;

    open spec fn view(&self) -> ColumnDefinitionView {
        ColumnDefinitionView {
            table: self.table@,
            column: self.column@,
            definition: self.definition@,
        }
    }
}

/// A column of a table and how it is declared.
pub open spec fn column(
    table: Seq<char>,
    column: Seq<char>,
    definition: Seq<char>,
) -> ColumnDefinitionView {
    ColumnDefinitionView { table, column, definition }
}

/// The columns that older databases lack.
pub open spec fn required() -> Seq<ColumnDefinitionView> {
    seq![
        column("commission_entries"@, "settlement_batch_id"@, "TEXT"@),
        column("orders"@, "provider_id"@, "TEXT"@),
        column("audit_logs"@, "endpoint_title"@, "TEXT NOT NULL DEFAULT '运营接口'"@),
        column("audit_logs"@, "response_body"@, "TEXT"@),
        column("audit_logs"@, "customer_id"@, "TEXT"@),
        column("audit_logs"@, "customer_name"@, "TEXT NOT NULL DEFAULT ''"@),
        column("orders"@, "deployment_type"@, "TEXT NOT NULL DEFAULT 'saas'"@),
        column("ai_employee_products"@, "version"@, "TEXT NOT NULL DEFAULT '1.0.0'"@),
        column("ai_employee_products"@, "package_version"@, "TEXT NOT NULL DEFAULT '1.0.0'"@),
        column("ai_employee_products"@, "skill_ids_json"@, "TEXT NOT NULL DEFAULT '[]'"@),
        column("ai_employee_products"@, "system_prompt"@, "TEXT NOT NULL DEFAULT ''"@),
        column("ai_employee_products"@, "allow_network"@, "INTEGER NOT NULL DEFAULT 0"@),
        column("ai_employee_products"@, "allowed_tools_json"@, "TEXT NOT NULL DEFAULT '[]'"@),
        column("ai_employee_products"@, "application_ids_json"@, "TEXT NOT NULL DEFAULT '[]'"@),
        column("ai_employee_products"@, "avatar_url"@, "TEXT"@),
        column("operation_skills"@, "package_name"@, "TEXT NOT NULL DEFAULT ''"@),
        column("operation_skills"@, "source"@, "TEXT NOT NULL DEFAULT 'operation-center'"@),
        column("operation_skills"@, "version"@, "TEXT NOT NULL DEFAULT '1.0.0'"@),
        column("operation_skills"@, "package_path"@, "TEXT NOT NULL DEFAULT ''"@),
        column("operation_skills"@, "application_ids_json"@, "TEXT NOT NULL DEFAULT '[]'"@),
        column("licenses"@, "ai_employees_json"@, "TEXT NOT NULL DEFAULT '[]'"@),
        column("licenses"@, "order_id"@, "TEXT"@),
        column("application_releases"@, "applicant_subject"@, "TEXT NOT NULL DEFAULT ''"@),
        column("application_releases"@, "version"@, "TEXT NOT NULL DEFAULT '1.0.0'"@),
    ]
}

/// The columns that older databases have and that are in use no more.
pub open spec fn retired() -> Seq<ColumnDefinitionView> {
    seq![
        column("ai_employee_products"@, "persona_id"@, ""@),
        column("operation_skills"@, "is_system"@, ""@),
        column("operation_skills"@, "requires_confirmation"@, ""@),
    ]
}

/// The columns that older databases lack.
pub fn required_columns() -> (r: Vec<ColumnDefinition>)
    ensures
        text::views(r@) == required(),
{
    let list: Vec<ColumnDefinition> = vec![
        ColumnDefinition { table: "commission_entries", column: "settlement_batch_id", definition: "TEXT" },
        ColumnDefinition { table: "orders", column: "provider_id", definition: "TEXT" },
        ColumnDefinition { table: "audit_logs", column: "endpoint_title", definition: "TEXT NOT NULL DEFAULT '运营接口'" },
        ColumnDefinition { table: "audit_logs", column: "response_body", definition: "TEXT" },
        ColumnDefinition { table: "audit_logs", column: "customer_id", definition: "TEXT" },
        ColumnDefinition { table: "audit_logs", column: "customer_name", definition: "TEXT NOT NULL DEFAULT ''" },
        ColumnDefinition { table: "orders", column: "deployment_type", definition: "TEXT NOT NULL DEFAULT 'saas'" },
        ColumnDefinition { table: "ai_employee_products", column: "version", definition: "TEXT NOT NULL DEFAULT '1.0.0'" },
        ColumnDefinition { table: "ai_employee_products", column: "package_version", definition: "TEXT NOT NULL DEFAULT '1.0.0'" },
        ColumnDefinition { table: "ai_employee_products", column: "skill_ids_json", definition: "TEXT NOT NULL DEFAULT '[]'" },
        ColumnDefinition { table: "ai_employee_products", column: "system_prompt", definition: "TEXT NOT NULL DEFAULT ''" },
        ColumnDefinition { table: "ai_employee_products", column: "allow_network", definition: "INTEGER NOT NULL DEFAULT 0" },
        ColumnDefinition { table: "ai_employee_products", column: "allowed_tools_json", definition: "TEXT NOT NULL DEFAULT '[]'" },
        ColumnDefinition { table: "ai_employee_products", column: "application_ids_json", definition: "TEXT NOT NULL DEFAULT '[]'" },
        ColumnDefinition { table: "ai_employee_products", column: "avatar_url", definition: "TEXT" },
        ColumnDefinition { table: "operation_skills", column: "package_name", definition: "TEXT NOT NULL DEFAULT ''" },
        ColumnDefinition { table: "operation_skills", column: "source", definition: "TEXT NOT NULL DEFAULT 'operation-center'" },
        ColumnDefinition { table: "operation_skills", column: "version", definition: "TEXT NOT NULL DEFAULT '1.0.0'" },
        ColumnDefinition { table: "operation_skills", column: "package_path", definition: "TEXT NOT NULL DEFAULT ''" },
        ColumnDefinition { table: "operation_skills", column: "application_ids_json", definition: "TEXT NOT NULL DEFAULT '[]'" },
        ColumnDefinition { table: "licenses", column: "ai_employees_json", definition: "TEXT NOT NULL DEFAULT '[]'" },
        ColumnDefinition { table: "licenses", column: "order_id", definition: "TEXT" },
        ColumnDefinition { table: "application_releases", column: "applicant_subject", definition: "TEXT NOT NULL DEFAULT ''" },
        ColumnDefinition { table: "application_releases", column: "version", definition: "TEXT NOT NULL DEFAULT '1.0.0'" },
    ];
    assert(text::views(list@) =~= required());
    list
}

/// The columns that are in use no more.
pub fn retired_columns() -> (r: Vec<ColumnDefinition>)
    ensures
        text::views(r@) == retired(),
{
    let list: Vec<ColumnDefinition> = vec![
        ColumnDefinition { table: "ai_employee_products", column: "persona_id", definition: "" },
        ColumnDefinition { table: "operation_skills", column: "is_system", definition: "" },
        ColumnDefinition { table: "operation_skills", column: "requires_confirmation", definition: "" },
    ];
    assert(text::views(list@) =~= retired());
    list
}

/// The columns of a table, by their names.
pub struct TableColumns {
    pub table: String,
    pub columns: Vec<String>,
}

/// What a `TableColumns` holds.
#[verifier::ext_equal]
pub struct TableColumnsView {
    pub table: Seq<char>,
    pub columns: Seq<Seq<char>>,
}

impl View for TableColumns {
    type V = TableColumnsView;

    open spec fn view(&self) -> TableColumnsView {
        TableColumnsView { table: self.table@, columns: text::views(self.columns@) }
    }
}

/// Whether some table in a list is the named one and has the column.
pub open spec fn lists(
    tables: Seq<TableColumnsView>,
    table: Seq<char>,
    column: Seq<char>,
) -> bool {
    exists|i: int|
        0 <= i < tables.len() && (#[trigger] tables[i]).table == table && tables[i].columns.contains(
            column,
        )
}

/// The columns of all tables: each with the name of its table.
pub open spec fn all_columns(tables: Seq<TableColumnsView>) -> Set<(Seq<char>, Seq<char>)> {
    Set::new(|c: (Seq<char>, Seq<char>)| lists(tables, c.0, c.1))
}

/// Whether the tables have a column.
pub fn has_column(tables: &Vec<TableColumns>, table: &str, column: &str) -> (r: bool)
    ensures
        r == all_columns(text::views(tables@)).contains((table@, column@)),
{
    let ghost all = text::views(tables@);
    let mut i: usize = 0;
    while i < tables.len()
        invariant
            i <= tables@.len(),
            all == text::views(tables@),
            forall|k: int|
                0 <= k < i ==> !((#[trigger] all[k]).table == table@ && all[k].columns.contains(
                    column@,
                )),
        decreases tables@.len() - i,
    {
        assert(all[i as int] == tables@[i as int]@);
        if text::same(tables[i].table.as_str(), table) && text::contains_text(
            &tables[i].columns,
            column,
        ) {
            return true;
        }
        i = i + 1;
    }
    false
}

/// A change to a table.
pub enum SchemaChange {
    Drop(ColumnDefinition),
    Include(ColumnDefinition),
}

/// What a change to a table does.
#[verifier::ext_equal]
pub enum SchemaChangeView {
    Drop(ColumnDefinitionView),
    Include(ColumnDefinitionView),
}

impl View for SchemaChange {
    type V = SchemaChangeView;

    open spec fn view(&self) -> SchemaChangeView {
        match self {
            SchemaChange::Drop(c) => SchemaChangeView::Drop(c@),
            SchemaChange::Include(c) => SchemaChangeView::Include(c@),
        }
    }
}

/// Of some retired columns, those that are there are dropped.
pub open spec fn drops(
    columns: Seq<ColumnDefinitionView>,
    present: Set<(Seq<char>, Seq<char>)>,
) -> Seq<SchemaChangeView>
    decreases columns.len(),
{
    if columns.len() == 0 {
        Seq::empty()
    } else {
        let c = columns.last();
        let before = drops(columns.drop_last(), present);
        if present.contains((c.table, c.column)) {
            before.push(SchemaChangeView::Drop(c))
        } else {
            before
        }
    }
}

/// Of some required columns, those that are not there are added.
pub open spec fn additions(
    columns: Seq<ColumnDefinitionView>,
    present: Set<(Seq<char>, Seq<char>)>,
) -> Seq<SchemaChangeView>
    decreases columns.len(),
{
    if columns.len() == 0 {
        Seq::empty()
    } else {
        let c = columns.last();
        let before = additions(columns.drop_last(), present);
        if present.contains((c.table, c.column)) {
            before
        } else {
            before.push(SchemaChangeView::Include(c))
        }
    }
}

/// What brings a database up to date that has the given columns.
pub open spec fn changes(present: Set<(Seq<char>, Seq<char>)>) -> Seq<SchemaChangeView> {
    drops(retired(), present) + additions(required(), present)
}

/// What brings a database up to date that has the given tables.
pub fn schema_changes(tables: &Vec<TableColumns>) -> (r: Vec<SchemaChange>)
    ensures
        text::views(r@) == changes(all_columns(text::views(tables@))),
{
    let ghost present = all_columns(text::views(tables@));
    let ghost old_columns = retired();
    let ghost new_columns = required();
    let mut out: Vec<SchemaChange> = Vec::new();
    assert(text::views(out@) =~= drops(old_columns.take(0), present));
    for item in it: retired_columns()
        invariant
            text::views(it.seq()) == old_columns,
            present == all_columns(text::views(tables@)),
            text::views(out@) == drops(old_columns.take(it.index() as int), present),
    {
        proof {
            let i = it.index() as int;
            assert(text::views(it.seq())[i] == item@);
            assert(old_columns.take(i + 1).drop_last() =~= old_columns.take(i));
        }
        if has_column(tables, item.table, item.column) {
            let change = SchemaChange::Drop(item);
            proof {
                text::lemma_views_push(out@, change);
            }
            out.push(change);
        }
    }
    assert(old_columns.take(old_columns.len() as int) =~= old_columns);
    let ghost dropped = text::views(out@);
    assert(text::views(out@) =~= dropped + additions(new_columns.take(0), present));
    for item in it: required_columns()
        invariant
            text::views(it.seq()) == new_columns,
            present == all_columns(text::views(tables@)),
            text::views(out@) == dropped + additions(
                new_columns.take(it.index() as int),
                present,
            ),
    {
        proof {
            let i = it.index() as int;
            assert(text::views(it.seq())[i] == item@);
            assert(new_columns.take(i + 1).drop_last() =~= new_columns.take(i));
        }
        if !has_column(tables, item.table, item.column) {
            let change = SchemaChange::Include(item);
            proof {
                text::lemma_views_push(out@, change);
                let so_far = additions(new_columns.take(it.index() as int), present);
                assert((dropped + so_far).push(change@) =~= dropped + so_far.push(change@));
            }
            out.push(change);
        }
    }
    assert(new_columns.take(new_columns.len() as int) =~= new_columns);
    out
}

/// The statement that makes a change.
pub open spec fn statement_of(change: SchemaChangeView) -> Seq<char> {
    match change {
        SchemaChangeView::Drop(c) => "ALTER TABLE "@ + c.table + " DROP COLUMN "@ + c.column,
        SchemaChangeView::Include(c) => "ALTER TABLE "@ + c.table + " ADD COLUMN "@ + c.column
            + " "@ + c.definition,
    }
}

/// The statement that makes a change.
pub fn change_statement(change: &SchemaChange) -> (r: String)
    ensures
        r@ == statement_of(change@),
{
    match change {
        SchemaChange::Drop(c) => {
            let start = text::join2("ALTER TABLE ", c.table);
            text::join3(start.as_str(), " DROP COLUMN ", c.column)
        },
        SchemaChange::Include(c) => {
            let start = text::join2("ALTER TABLE ", c.table);
            let named = text::join3(start.as_str(), " ADD COLUMN ", c.column);
            text::join3(named.as_str(), " ", c.definition)
        },
    }
}

/// The columns after one change.
pub open spec fn changed(
    present: Set<(Seq<char>, Seq<char>)>,
    change: SchemaChangeView,
) -> Set<(Seq<char>, Seq<char>)> {
    match change {
        SchemaChangeView::Drop(c) => present.remove((c.table, c.column)),
        SchemaChangeView::Include(c) => present.insert((c.table, c.column)),
    }
}

/// The columns after some changes.
pub open spec fn after(
    present: Set<(Seq<char>, Seq<char>)>,
    list: Seq<SchemaChangeView>,
) -> Set<(Seq<char>, Seq<char>)>
    decreases list.len(),
{
    if list.len() == 0 {
        present
    } else {
        changed(after(present, list.drop_last()), list.last())
    }
}

/// Whether a column is among some.
pub open spec fn is_among(
    columns: Seq<ColumnDefinitionView>,
    table: Seq<char>,
    column: Seq<char>,
) -> bool {
    exists|i: int|
        0 <= i < columns.len() && (#[trigger] columns[i]).table == table && columns[i].column
            == column
}

proof fn lemma_among_last(
    columns: Seq<ColumnDefinitionView>,
    table: Seq<char>,
    column: Seq<char>,
)
    requires
        columns.len() > 0,
    ensures
        is_among(columns, table, column) <==> is_among(columns.drop_last(), table, column) || (
        columns.last().table == table && columns.last().column == column),
{
    let init = columns.drop_last();
    if is_among(init, table, column) {
        let i = choose|i: int|
            0 <= i < init.len() && (#[trigger] init[i]).table == table && init[i].column == column;
        assert(columns[i] == init[i]);
    }
    if is_among(columns, table, column) {
        let i = choose|i: int|
            0 <= i < columns.len() && (#[trigger] columns[i]).table == table && columns[i].column
                == column;
        if i < init.len() {
            assert(init[i] == columns[i]);
        }
    }
    if columns.last().table == table && columns.last().column == column {
        assert(columns[columns.len() - 1].table == table);
    }
}

proof fn lemma_after_drops(
    columns: Seq<ColumnDefinitionView>,
    present: Set<(Seq<char>, Seq<char>)>,
    table: Seq<char>,
    column: Seq<char>,
)
    ensures
        after(present, drops(columns, present)).contains((table, column)) <==> present.contains(
            (table, column),
        ) && !is_among(columns, table, column),
    decreases columns.len(),
{
    if columns.len() > 0 {
        lemma_after_drops(columns.drop_last(), present, table, column);
        lemma_among_last(columns, table, column);
        let c = columns.last();
        let before = drops(columns.drop_last(), present);
        if present.contains((c.table, c.column)) {
            assert(before.push(SchemaChangeView::Drop(c)).drop_last() =~= before);
        }
    }
}

proof fn lemma_after_additions(
    columns: Seq<ColumnDefinitionView>,
    present: Set<(Seq<char>, Seq<char>)>,
    start: Set<(Seq<char>, Seq<char>)>,
    table: Seq<char>,
    column: Seq<char>,
)
    ensures
        after(start, additions(columns, present)).contains((table, column)) <==> start.contains(
            (table, column),
        ) || (is_among(columns, table, column) && !present.contains((table, column))),
    decreases columns.len(),
{
    if columns.len() > 0 {
        lemma_after_additions(columns.drop_last(), present, start, table, column);
        lemma_among_last(columns, table, column);
        let c = columns.last();
        let before = additions(columns.drop_last(), present);
        if !present.contains((c.table, c.column)) {
            assert(before.push(SchemaChangeView::Include(c)).drop_last() =~= before);
        }
    }
}

proof fn lemma_after_both(
    present: Set<(Seq<char>, Seq<char>)>,
    a: Seq<SchemaChangeView>,
    b: Seq<SchemaChangeView>,
)
    ensures
        after(present, a + b) == after(after(present, a), b),
    decreases b.len(),
{
    if b.len() == 0 {
        assert(a + b =~= a);
    } else {
        lemma_after_both(present, a, b.drop_last());
        assert((a + b).drop_last() =~= a + b.drop_last());
    }
}

proof fn lemma_retired_are_not_required(table: Seq<char>, column: Seq<char>)
    requires
        is_among(retired(), table, column),
    ensures
        !is_among(required(), table, column),
{
    reveal_strlit("ai_employees_json");
    reveal_strlit("allow_network");
    reveal_strlit("allowed_tools_json");
    reveal_strlit("applicant_subject");
    reveal_strlit("application_ids_json");
    reveal_strlit("avatar_url");
    reveal_strlit("customer_id");
    reveal_strlit("customer_name");
    reveal_strlit("deployment_type");
    reveal_strlit("endpoint_title");
    reveal_strlit("is_system");
    reveal_strlit("order_id");
    reveal_strlit("package_name");
    reveal_strlit("package_path");
    reveal_strlit("package_version");
    reveal_strlit("persona_id");
    reveal_strlit("provider_id");
    reveal_strlit("requires_confirmation");
    reveal_strlit("response_body");
    reveal_strlit("settlement_batch_id");
    reveal_strlit("skill_ids_json");
    reveal_strlit("source");
    reveal_strlit("system_prompt");
    reveal_strlit("version");
    let old_columns = retired();
    let new_columns = required();
    let i = choose|i: int|
        0 <= i < old_columns.len() && (#[trigger] old_columns[i]).table == table
            && old_columns[i].column == column;
    assert(i == 0 || i == 1 || i == 2);
    assert(column.len() == 10 || column.len() == 9 || column.len() == 21);
    assert(column.len() == 10 ==> column[0] == 'p');
    assert forall|k: int| 0 <= k < new_columns.len() implies (#[trigger] new_columns[k]).column
        != column by {
        let other = new_columns[k].column;
        assert(other.len() != 9 && other.len() != 21);
        assert(other.len() == 10 ==> other[0] == 'a');
    }
}

/// A database that was brought up to date has every required column and no
/// retired one; of all other columns it has those that it had.
pub proof fn law_database_is_brought_up_to_date(
    present: Set<(Seq<char>, Seq<char>)>,
    table: Seq<char>,
    column: Seq<char>,
)
    ensures
        after(present, changes(present)).contains((table, column)) <==> is_among(
            required(),
            table,
            column,
        ) || (present.contains((table, column)) && !is_among(retired(), table, column)),
{
    let start = after(present, drops(retired(), present));
    lemma_after_both(present, drops(retired(), present), additions(required(), present));
    lemma_after_drops(retired(), present, table, column);
    lemma_after_additions(required(), present, start, table, column);
    if is_among(retired(), table, column) {
        lemma_retired_are_not_required(table, column);
    }
}

proof fn lemma_no_drops(
    columns: Seq<ColumnDefinitionView>,
    present: Set<(Seq<char>, Seq<char>)>,
)
    requires
        forall|i: int|
            0 <= i < columns.len() ==> !present.contains(
                ((#[trigger] columns[i]).table, columns[i].column),
            ),
    ensures
        drops(columns, present).len() == 0,
    decreases columns.len(),
{
    if columns.len() > 0 {
        assert(!present.contains(
            (columns[columns.len() - 1].table, columns[columns.len() - 1].column),
        ));
        assert forall|i: int| 0 <= i < columns.drop_last().len() implies !present.contains(
            ((#[trigger] columns.drop_last()[i]).table, columns.drop_last()[i].column),
        ) by {
            assert(columns[i] == columns.drop_last()[i]);
        }
        lemma_no_drops(columns.drop_last(), present);
    }
}

proof fn lemma_no_additions(
    columns: Seq<ColumnDefinitionView>,
    present: Set<(Seq<char>, Seq<char>)>,
)
    requires
        forall|i: int|
            0 <= i < columns.len() ==> present.contains(
                ((#[trigger] columns[i]).table, columns[i].column),
            ),
    ensures
        additions(columns, present).len() == 0,
    decreases columns.len(),
{
    if columns.len() > 0 {
        assert(present.contains(
            (columns[columns.len() - 1].table, columns[columns.len() - 1].column),
        ));
        assert forall|i: int| 0 <= i < columns.drop_last().len() implies present.contains(
            ((#[trigger] columns.drop_last()[i]).table, columns.drop_last()[i].column),
        ) by {
            assert(columns[i] == columns.drop_last()[i]);
        }
        lemma_no_additions(columns.drop_last(), present);
    }
}

/// A database that was brought up to date needs no change when the service
/// starts again.
pub proof fn law_up_to_date_database_stays(present: Set<(Seq<char>, Seq<char>)>)
    ensures
        changes(after(present, changes(present))).len() == 0,
{
    let end = after(present, changes(present));
    let old_columns = retired();
    let new_columns = required();
    assert forall|i: int| 0 <= i < old_columns.len() implies !end.contains(
        ((#[trigger] old_columns[i]).table, old_columns[i].column),
    ) by {
        let c = old_columns[i];
        assert(is_among(old_columns, c.table, c.column));
        lemma_retired_are_not_required(c.table, c.column);
        law_database_is_brought_up_to_date(present, c.table, c.column);
    }
    assert forall|i: int| 0 <= i < new_columns.len() implies end.contains(
        ((#[trigger] new_columns[i]).table, new_columns[i].column),
    ) by {
        let c = new_columns[i];
        assert(is_among(new_columns, c.table, c.column));
        law_database_is_brought_up_to_date(present, c.table, c.column);
    }
    lemma_no_drops(old_columns, end);
    lemma_no_additions(new_columns, end);
}

/// A column of the table of licenses, and whether it must have a value.
pub struct LicenseColumn {
    pub name: String,
    pub not_null: bool,
}

/// What a `LicenseColumn` holds.
#[verifier::ext_equal]
pub struct LicenseColumnView {
    pub name: Seq<char>,
    pub not_null: bool,
}

impl View for LicenseColumn {
    type V = LicenseColumnView;

    open spec fn view(&self) -> LicenseColumnView {
        LicenseColumnView { name: self.name@, not_null: self.not_null }
    }
}

impl Keyed for LicenseColumn {
    open spec fn key_of(record: LicenseColumnView) -> Seq<char> {
        record.name
    }

    fn has_key(&self, key: &str) -> (r: bool) {
        text::same(self.name.as_str(), key)
    }
}

/// Whether the table of licenses asks for the order of each license: the order
/// must be given, it is a reference to the table of orders, and the name of the
/// customer is kept.
pub open spec fn asks_for_orders(
    columns: Seq<LicenseColumnView>,
    references: Seq<Seq<char>>,
) -> bool {
    &&& lookup::found::<LicenseColumn>(columns, "order_id"@) matches Some(c) && c.not_null
    &&& lookup::found::<LicenseColumn>(columns, "customer_name_snapshot"@) is Some
    &&& references.contains("orders"@)
}

/// Whether the table of licenses asks for the order of each license, given its
/// columns and the tables that it refers to.
pub fn license_relation_is_enforced(
    columns: &Vec<LicenseColumn>,
    references: &Vec<String>,
) -> (r: bool)
    ensures
        r == asks_for_orders(text::views(columns@), text::views(references@)),
{
    let order_given = match lookup::find(columns, "order_id") {
        Some(c) => c.not_null,
        None => false,
    };
    let name_kept = match lookup::find(columns, "customer_name_snapshot") {
        Some(_) => true,
        None => false,
    };
    order_given && name_kept && text::contains_text(references, "orders")
}

/// The statement that makes the table of licenses, in which each license has an
/// order of its own.
pub fn license_table_statement() -> (r: &'static str)
    ensures
        r@
            == "CREATE TABLE licenses (license_id TEXT PRIMARY KEY NOT NULL, license TEXT NOT NULL, subject TEXT NOT NULL, customer_name_snapshot TEXT NOT NULL DEFAULT '', modules_json TEXT NOT NULL, issued_at INTEGER NOT NULL, expires_at INTEGER NOT NULL, module_expires_at_json TEXT NOT NULL, ai_employees_json TEXT NOT NULL DEFAULT '[]', platform_status TEXT NOT NULL, module_statuses_json TEXT NOT NULL, order_id TEXT NOT NULL UNIQUE, linkage_status TEXT NOT NULL DEFAULT 'linked', FOREIGN KEY(order_id) REFERENCES orders(order_id))"@,
{
    "CREATE TABLE licenses (license_id TEXT PRIMARY KEY NOT NULL, license TEXT NOT NULL, subject TEXT NOT NULL, customer_name_snapshot TEXT NOT NULL DEFAULT '', modules_json TEXT NOT NULL, issued_at INTEGER NOT NULL, expires_at INTEGER NOT NULL, module_expires_at_json TEXT NOT NULL, ai_employees_json TEXT NOT NULL DEFAULT '[]', platform_status TEXT NOT NULL, module_statuses_json TEXT NOT NULL, order_id TEXT NOT NULL UNIQUE, linkage_status TEXT NOT NULL DEFAULT 'linked', FOREIGN KEY(order_id) REFERENCES orders(order_id))"
}

/// A change names its table and its column, and what is added also how it is
/// declared.
pub proof fn law_statement_names_the_column(change: SchemaChangeView)
    ensures
        change matches SchemaChangeView::Drop(c) ==> statement_of(change) == "ALTER TABLE "@
            + c.table + " DROP COLUMN "@ + c.column,
        change matches SchemaChangeView::Include(c) ==> statement_of(change) == "ALTER TABLE "@
            + c.table + " ADD COLUMN "@ + c.column + " "@ + c.definition,
{
}

/// The table of licenses asks for orders exactly where it has a column for the order
/// that must be given, a column for the name of the customer, and a reference to the
/// orders. This is of a table that has no column twice.
pub proof fn law_licenses_ask_for_orders(
    columns: Seq<LicenseColumnView>,
    references: Seq<Seq<char>>,
)
    requires
        forall|i: int, j: int|
            0 <= i < j < columns.len() ==> (#[trigger] columns[i]).name != (
            #[trigger] columns[j]).name,
    ensures
        asks_for_orders(columns, references) <==> {
            &&& exists|i: int|
                0 <= i < columns.len() && (#[trigger] columns[i]).name == "order_id"@
                    && columns[i].not_null
            &&& exists|i: int|
                0 <= i < columns.len() && (#[trigger] columns[i]).name
                    == "customer_name_snapshot"@
            &&& references.contains("orders"@)
        },
{
    lookup::lemma_found::<LicenseColumn>(columns, "order_id"@);
    lookup::lemma_found::<LicenseColumn>(columns, "customer_name_snapshot"@);
    match lookup::found::<LicenseColumn>(columns, "order_id"@) {
        Some(c) => {
            let k = columns.index_of(c);
            assert(columns[k].name == "order_id"@);
            assert forall|i: int|
                0 <= i < columns.len() && (#[trigger] columns[i]).name
                    == "order_id"@ implies columns[i] == c by {
                if i < k {
                    assert(columns[i].name != columns[k].name);
                } else if k < i {
                    assert(columns[k].name != columns[i].name);
                }
            }
        },
        None => {
            assert forall|i: int| 0 <= i < columns.len() implies (#[trigger] columns[i]).name
                != "order_id"@ by {
                assert(LicenseColumn::key_of(columns[i]) != "order_id"@);
            }
        },
    }
    match lookup::found::<LicenseColumn>(columns, "customer_name_snapshot"@) {
        Some(c) => {
            let k = columns.index_of(c);
            assert(columns[k].name == "customer_name_snapshot"@);
        },
        None => {
            assert forall|i: int| 0 <= i < columns.len() implies (#[trigger] columns[i]).name
                != "customer_name_snapshot"@ by {
                assert(LicenseColumn::key_of(columns[i]) != "customer_name_snapshot"@);
            }
        },
    }
}

} // verus!
