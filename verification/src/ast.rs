//! The parts of a parsed SQL statement that the rules read. Field names follow PostgreSQL's
//! parse tree; what no rule looks at is left out, and a node of any other kind is
//! [`Node::Other`].
use vstd::prelude::*;

verus! {

/// What an `ALTER TABLE` command does.
#[derive(Debug, Clone, Copy, PartialEq, Eq, Structural)]
pub enum AlterTableType {
    AddColumn,
    AddConstraint,
    AlterColumnType,
    AttachPartition,
    DetachPartition,
    DropColumn,
    DropConstraint,
    DropNotNull,
    SetAccessMethod,
    SetLogged,
    SetNotNull,
    SetUnLogged,
    ValidateConstraint,
    Other,
}

/// The kind of a constraint.
#[derive(Debug, Clone, Copy, PartialEq, Eq, Structural)]
pub enum ConstrType {
    Check,
    Default,
    Exclusion,
    Foreign,
    Generated,
    Identity,
    NotNull,
    Primary,
    Unique,
    Other,
}

/// The kind of a database object.
#[derive(Debug, Clone, Copy, PartialEq, Eq, Structural)]
pub enum ObjectType {
    Attribute,
    Column,
    Domain,
    Function,
    Index,
    MatView,
    Procedure,
    Schema,
    Sequence,
    TabConstraint,
    Table,
    Trigger,
    Type,
    View,
    Other,
}

/// What a `REINDEX` rebuilds.
#[derive(Debug, Clone, Copy, PartialEq, Eq, Structural)]
pub enum ReindexObjectType {
    Index,
    Table,
    Schema,
    System,
    Database,
    Undefined,
}

/// What a transaction statement does to the transaction.
#[derive(Debug, Clone, Copy, PartialEq, Eq, Structural)]
pub enum TransactionKind {
    /// `BEGIN` and `START TRANSACTION`.
    Begin,
    /// `COMMIT`, `ROLLBACK` and `PREPARE TRANSACTION`.
    End,
    Other,
}

/// What a `SET` or `RESET` does to a setting.
#[derive(Debug, Clone, Copy, PartialEq, Eq, Structural)]
pub enum VariableSetKind {
    /// `SET ... = value`.
    Value,
    /// `SET ... TO DEFAULT` and `RESET`.
    Reset,
    /// `RESET ALL`.
    ResetAll,
    Other,
}

/// A possibly qualified relation name.
#[derive(Debug)]
pub struct RangeVar {
    /// Schema, or empty.
    pub schemaname: String,
    /// Relation.
    pub relname: String,
    /// `"p"` permanent, `"u"` unlogged, `"t"` temporary.
    pub relpersistence: String,
}

/// A type as written.
#[derive(Debug)]
pub struct TypeName {
    /// The name parts, as [`Node::Str`]s.
    pub names: Vec<Node>,
    /// Byte offset of the type in the source, or -1 where unknown.
    pub location: i32,
}

/// A column of a `CREATE TABLE` or an `ADD COLUMN`.
#[derive(Debug)]
pub struct ColumnDef {
    pub colname: String,
    pub coltype: Option<TypeName>,
    /// Inline constraints, as [`Node::Constraint`]s.
    pub constraints: Vec<Node>,
}

/// A table or column constraint.
#[derive(Debug)]
pub struct Constraint {
    pub contype: ConstrType,
    /// Name, or empty.
    pub conname: String,
    /// `NOT VALID`.
    pub skip_validation: bool,
    /// The index of `USING INDEX`, or empty.
    pub indexname: String,
    /// Key columns of a primary key or unique constraint, as [`Node::Str`]s.
    pub keys: Vec<Node>,
    /// Referencing columns of a foreign key, as [`Node::Str`]s.
    pub fk_attrs: Vec<Node>,
    /// The expression of a default or check.
    pub raw_expr: Option<Box<Node>>,
}

/// `CREATE TABLE`.
#[derive(Debug)]
pub struct CreateStmt {
    pub relation: Option<RangeVar>,
    /// Columns and table constraints.
    pub table_elts: Vec<Node>,
    /// Whether it is a `PARTITION OF` child.
    pub partbound: bool,
    pub if_not_exists: bool,
}

/// `ALTER TABLE`.
#[derive(Debug)]
pub struct AlterTableStmt {
    pub relation: Option<RangeVar>,
    /// The commands, as [`Node::AlterTableCmd`]s.
    pub cmds: Vec<Node>,
}

/// One command of an `ALTER TABLE`.
#[derive(Debug)]
pub struct AlterTableCmd {
    pub subtype: AlterTableType,
    /// The column or constraint it names, or empty where it names none.
    pub name: String,
    /// The column, constraint or partition it is about.
    pub def: Option<Box<Node>>,
}

/// The partition an `ATTACH` or `DETACH PARTITION` names.
#[derive(Debug)]
pub struct PartitionCmd {
    pub name: Option<RangeVar>,
    pub concurrent: bool,
}

/// `CREATE INDEX`.
#[derive(Debug)]
pub struct IndexStmt {
    pub idxname: String,
    pub relation: Option<RangeVar>,
    /// The key parts, as [`Node::IndexElem`]s.
    pub index_params: Vec<Node>,
    pub concurrent: bool,
    pub if_not_exists: bool,
}

/// One key part of an index.
#[derive(Debug)]
pub struct IndexElem {
    /// Column, or empty for an expression.
    pub name: String,
}

/// `DROP` of all kinds but databases.
#[derive(Debug)]
pub struct DropStmt {
    pub remove_type: ObjectType,
    /// The objects; tables are [`Node::List`]s of name parts.
    pub objects: Vec<Node>,
    pub missing_ok: bool,
    pub concurrent: bool,
}

/// `ALTER ... RENAME`.
#[derive(Debug)]
pub struct RenameStmt {
    pub rename_type: ObjectType,
    pub relation: Option<RangeVar>,
    pub newname: String,
}

/// `ALTER TYPE ... ADD VALUE` and `RENAME VALUE`.
#[derive(Debug)]
pub struct AlterEnumStmt {
    /// The renamed label, or empty where a label is added.
    pub old_val: String,
    /// The new label.
    pub new_val: String,
}

/// `CREATE TRIGGER`.
#[derive(Debug)]
pub struct CreateTrigStmt {
    pub trigname: String,
    pub relation: Option<RangeVar>,
}

/// `CREATE SEQUENCE`.
#[derive(Debug)]
pub struct CreateSeqStmt {
    pub sequence: Option<RangeVar>,
    pub if_not_exists: bool,
}

/// `CREATE SCHEMA`.
#[derive(Debug)]
pub struct CreateSchemaStmt {
    pub schemaname: String,
    pub if_not_exists: bool,
}

/// `CREATE TABLE AS`, `CREATE MATERIALIZED VIEW` and `SELECT INTO`.
#[derive(Debug)]
pub struct CreateTableAsStmt {
    pub objtype: ObjectType,
    /// What it creates.
    pub relation: Option<RangeVar>,
    /// The column names it spells out.
    pub col_names: Vec<String>,
    pub is_select_into: bool,
    pub if_not_exists: bool,
}

/// `REFRESH MATERIALIZED VIEW`.
#[derive(Debug)]
pub struct RefreshMatViewStmt {
    pub concurrent: bool,
    /// `WITH NO DATA`.
    pub skip_data: bool,
}

/// `REINDEX`.
#[derive(Debug)]
pub struct ReindexStmt {
    pub kind: ReindexObjectType,
    /// Options, as [`Node::DefElem`]s.
    pub params: Vec<Node>,
}

/// `VACUUM` and `ANALYZE`.
#[derive(Debug)]
pub struct VacuumStmt {
    /// Options, as [`Node::DefElem`]s.
    pub options: Vec<Node>,
    /// Whether it is a `VACUUM`.
    pub is_vacuumcmd: bool,
}

/// A named option with an optional value.
#[derive(Debug)]
pub struct DefElem {
    pub defname: String,
    pub arg: Option<Box<Node>>,
}

/// `TRUNCATE`.
#[derive(Debug)]
pub struct TruncateStmt {
    /// The tables, as [`Node::RangeVar`]s.
    pub relations: Vec<Node>,
}

/// `COPY`.
#[derive(Debug)]
pub struct CopyStmt {
    pub relation: Option<RangeVar>,
    pub is_from: bool,
}

/// `COMMENT ON`.
#[derive(Debug)]
pub struct CommentStmt {
    pub objtype: ObjectType,
    /// The object's name: a [`Node::List`] of parts or one [`Node::Str`].
    pub object: Option<Box<Node>>,
}

/// `ALTER DOMAIN`.
#[derive(Debug)]
pub struct AlterDomainStmt {
    /// `"C"` add constraint, `"O"` set not null, `"N"` drop not null, `"V"` validate, `"X"` drop.
    pub subtype: String,
    pub def: Option<Box<Node>>,
}

/// `SET` and `RESET`.
#[derive(Debug)]
pub struct VariableSetStmt {
    pub kind: VariableSetKind,
    /// The setting, or empty for `RESET ALL`.
    pub name: String,
}

/// A function call.
#[derive(Debug)]
pub struct FuncCall {
    /// The name parts, as [`Node::Str`]s.
    pub funcname: Vec<Node>,
    pub args: Vec<Node>,
}

/// `CASE`.
#[derive(Debug)]
pub struct CaseExpr {
    pub arg: Option<Box<Node>>,
    /// The branches, as [`Node::CaseWhen`]s.
    pub args: Vec<Node>,
    pub defresult: Option<Box<Node>>,
}

/// A node of the parse tree.
#[derive(Debug)]
pub enum Node {
    CreateStmt(CreateStmt),
    AlterTableStmt(AlterTableStmt),
    AlterTableCmd(AlterTableCmd),
    ColumnDef(ColumnDef),
    Constraint(Constraint),
    PartitionCmd(PartitionCmd),
    IndexStmt(IndexStmt),
    IndexElem(IndexElem),
    DropStmt(DropStmt),
    /// `DROP DATABASE`, with whether it has `IF EXISTS`.
    DropdbStmt(bool),
    /// A `DROP` of another object that stands outside any database's schema (a role, a
    /// tablespace, a subscription, a user mapping), with whether it has `IF EXISTS`.
    DropGlobalStmt(bool),
    RenameStmt(RenameStmt),
    AlterEnumStmt(AlterEnumStmt),
    CreateTrigStmt(CreateTrigStmt),
    CreateSeqStmt(CreateSeqStmt),
    CreateSchemaStmt(CreateSchemaStmt),
    CreateTableAsStmt(CreateTableAsStmt),
    RefreshMatViewStmt(RefreshMatViewStmt),
    ReindexStmt(ReindexStmt),
    VacuumStmt(VacuumStmt),
    ClusterStmt,
    DefElem(DefElem),
    TruncateStmt(TruncateStmt),
    /// `INSERT`, with the table it fills.
    InsertStmt(Option<RangeVar>),
    /// `MERGE`, with the table it fills.
    MergeStmt(Option<RangeVar>),
    CopyStmt(CopyStmt),
    CommentStmt(CommentStmt),
    AlterDomainStmt(AlterDomainStmt),
    TransactionStmt(TransactionKind),
    VariableSetStmt(VariableSetStmt),
    DoStmt,
    RangeVar(RangeVar),
    /// A list of nodes.
    List(Vec<Node>),
    /// A string value.
    Str(String),
    /// An integer value.
    Integer(i32),
    /// A boolean value.
    Boolean(bool),
    FuncCall(FuncCall),
    /// The operand of a type cast.
    TypeCast(Option<Box<Node>>),
    /// The two operands of an operator.
    AExpr(Option<Box<Node>>, Option<Box<Node>>),
    /// The operands of `AND`, `OR` or `NOT`.
    BoolExpr(Vec<Node>),
    /// The arguments of `COALESCE`.
    CoalesceExpr(Vec<Node>),
    CaseExpr(CaseExpr),
    /// Condition and result of a `CASE` branch.
    CaseWhen(Option<Box<Node>>, Option<Box<Node>>),
    /// The arguments of `GREATEST` or `LEAST`.
    MinMaxExpr(Vec<Node>),
    /// The elements of an `ARRAY[...]`.
    AArrayExpr(Vec<Node>),
    Other,
}

/// One statement of an input.
#[derive(Debug)]
pub struct RawStmt {
    pub stmt: Option<Node>,
}

/// The values behind a list of references.
pub open spec fn values<T>(s: Seq<&T>) -> Seq<T> {
    s.map_values(|x: &T| *x)
}

/// The text of a string node.
pub open spec fn node_string_spec(n: Node) -> Option<Seq<char>> {
    match n {
        Node::Str(s) => Some(s@),
        _ => None,
    }
}

/// The string value of a string node (column-name lists hold these), if it is one.
pub fn node_string(n: &Node) -> (r: Option<&str>)
    ensures
        r is Some <==> node_string_spec(*n) is Some,
        r is Some ==> node_string_spec(*n) == Some(r->0@),
{
    match n {
        Node::Str(s) => Some(s.as_str()),
        _ => None,
    }
}

} // verus!
