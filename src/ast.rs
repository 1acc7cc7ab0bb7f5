//! The syntax tree of one source file, held in arenas and addressed by index.
use vstd::prelude::*;
use vstd::string::{StrSliceExecFns, StringExecFns};
use crate::arena::{Idx, IndexedArena};
use crate::lang::{joined, Path};
use crate::refcap::{PointerKind, ReferenceCapability};
use crate::text::{decimal, decimal_text, signed_decimal, signed_text};

verus! {

pub type TypeIndex = Idx;

pub type NodeIndex = Idx;

pub type StatementIndex = Idx;

pub type ExpressionIndex = Idx;

/// The arenas that hold every entity of one program's syntax tree.
pub struct ProgramArena {
    pub type_arena: IndexedArena<Type>,
    pub node_arena: IndexedArena<Node>,
    pub statement_arena: IndexedArena<Statement>,
    pub expression_arena: IndexedArena<Expression>,
}

impl ProgramArena {
    /// The four arenas are consistent.
    pub open spec fn wf(&self) -> bool {
        &&& self.type_arena.wf()
        &&& self.node_arena.wf()
        &&& self.statement_arena.wf()
        &&& self.expression_arena.wf()
    }

    /// Four empty arenas.
    pub fn new() -> (r: ProgramArena)
        ensures
            r.wf(),
            r.type_arena@ == Map::<Idx, Type>::empty(),
            r.node_arena@ == Map::<Idx, Node>::empty(),
            r.statement_arena@ == Map::<Idx, Statement>::empty(),
            r.expression_arena@ == Map::<Idx, Expression>::empty(),
            r.node_arena.removal_count() == 0,
    {
        ProgramArena {
            type_arena: IndexedArena::new(),
            node_arena: IndexedArena::new(),
            statement_arena: IndexedArena::new(),
            expression_arena: IndexedArena::new(),
        }
    }
}

/// A lookup in the syntax tree that found nothing: the tree is inconsistent, a
/// fault of the pipeline rather than of the program text.
#[derive(Clone, Copy, Debug, PartialEq, Eq, Structural)]
pub enum LoweringError {
    /// A statement index that resolves to nothing.
    DanglingStatement(StatementIndex),
    /// An expression index that resolves to nothing.
    DanglingExpression(ExpressionIndex),
    /// A type index that resolves to nothing.
    DanglingType(TypeIndex),
    /// Statements, expressions or types that reach themselves again.
    Cycle,
}

/// A parsed source file.
pub struct Program {
    pub path: Path,
    pub file_name: String,
    pub imports: Vec<Path>,
    pub program_arena: ProgramArena,
}

impl Program {
    /// The statement under `index`.
    pub fn statement(&self, index: StatementIndex) -> (r: Result<&Statement, LoweringError>)
        ensures
            match r {
                Ok(s) => self.program_arena.statement_arena@.contains_key(index)
                    && *s == self.program_arena.statement_arena@[index],
                Err(e) => !self.program_arena.statement_arena@.contains_key(index)
                    && e == LoweringError::DanglingStatement(index),
            },
    {
        match self.program_arena.statement_arena.get(index) {
            Some(s) => Ok(s),
            None => Err(LoweringError::DanglingStatement(index)),
        }
    }

    /// The expression under `index`.
    pub fn expression(&self, index: ExpressionIndex) -> (r: Result<&Expression, LoweringError>)
        ensures
            match r {
                Ok(e) => self.program_arena.expression_arena@.contains_key(index)
                    && *e == self.program_arena.expression_arena@[index],
                Err(e) => !self.program_arena.expression_arena@.contains_key(index)
                    && e == LoweringError::DanglingExpression(index),
            },
    {
        match self.program_arena.expression_arena.get(index) {
            Some(e) => Ok(e),
            None => Err(LoweringError::DanglingExpression(index)),
        }
    }
}

/// The name of the module a source file holds: the file name up to its first
/// `.`, or the whole name where it has none.
pub fn module_name(file_name: &str) -> (r: String)
    ensures
        r@.len() <= file_name@.len(),
        r@ == file_name@.take(r@.len() as int),
        forall|q: int| 0 <= q < r@.len() ==> file_name@[q] != '.',
        r@.len() == file_name@.len() || file_name@[r@.len() as int] == '.',
{
    let n = file_name.unicode_len();
    let mut k: usize = 0;
    while k < n && file_name.get_char(k) != '.'
        invariant
            n == file_name@.len(),
            k <= n,
            forall|q: int| 0 <= q < k ==> file_name@[q] != '.',
        decreases n - k,
    {
        k = k + 1;
    }
    let r = file_name.substring_char(0, k);
    String::from_str(r)
}

/// A name with an optional type annotation.
#[derive(Clone, Debug)]
pub struct TypedName {
    pub name: String,
    pub typ: Option<TypeIndex>,
}

/// A type as written in the source.
#[derive(Clone, Debug)]
pub enum Type {
    /// A named type.
    Base(TypeName),
    /// A base type narrowed by a named predicate.
    Refinement(String, TypeIndex, ExpressionIndex),
    /// An anonymous record.
    Row(Vec<TypedName>),
    /// A pointer to a type, with its kind and capability.
    Reference(TypeIndex, PointerKind, ReferenceCapability),
    Optional(TypeIndex),
    /// Argument types and result type.
    Function(Vec<TypeIndex>, TypeIndex),
}

/// A type's name: the module path, the name and the type arguments.
#[derive(Clone, Debug)]
pub struct TypeName {
    pub path: Path,
    pub name: String,
    pub arguments: Vec<TypeIndex>,
}

/// The slot numbers of type arguments, written one after another.
pub open spec fn slots_text(args: Seq<TypeIndex>) -> Seq<char>
    decreases args.len(),
{
    if args.len() == 0 {
        Seq::empty()
    } else {
        slots_text(args.drop_last()) + decimal_text(args.last().slot as nat)
    }
}

/// How a type name is written: `path::name`, and the type arguments' slot
/// numbers in brackets where it has any.
pub open spec fn type_name_text(path: Seq<Seq<char>>, name: Seq<char>, args: Seq<TypeIndex>) -> Seq<char> {
    let head = joined(path) + "::"@ + name;
    if args.len() > 0 {
        head + "["@ + slots_text(args) + "]"@
    } else {
        head
    }
}

impl TypeName {
    /// The type name in its written form.
    pub fn to_string(&self) -> (r: String)
        ensures
            r@ == type_name_text(self.path@, self.name@, self.arguments@),
    {
        let mut name = self.path.to_string();
        name.append("::");
        name.append(self.name.as_str());
        if self.arguments.len() > 0 {
            name.append("[");
            let ghost head = name@;
            let mut i: usize = 0;
            while i < self.arguments.len()
                invariant
                    i <= self.arguments.len(),
                    name@ == head + slots_text(self.arguments@.take(i as int)),
                decreases self.arguments.len() - i,
            {
                let d = decimal(self.arguments[i].slot as u64);
                name.append(d.as_str());
                proof {
                    assert(self.arguments@.take(i + 1).drop_last() =~= self.arguments@.take(i as int));
                }
                i = i + 1;
            }
            assert(self.arguments@.take(self.arguments.len() as int) =~= self.arguments@);
            name.append("]");
        }
        name
    }

    /// A name without type arguments.
    pub fn from(pair: (Path, String)) -> (r: Self)
        ensures
            r.path == pair.0,
            r.name == pair.1,
            r.arguments@.len() == 0,
    {
        TypeName { path: pair.0, name: pair.1, arguments: Vec::new() }
    }
}

/// Visibility of a declaration.
#[derive(Clone, Copy, Debug, PartialEq, Eq, Structural)]
pub enum Access {
    Public,
    Internal,
}

/// A function declaration.
#[derive(Clone, Debug)]
pub struct AstFunction {
    pub access: Access,
    pub kind: FunctionKind,
    pub name: String,
    pub type_params: Vec<TypedName>,
    pub params: Vec<TypedName>,
    pub return_type: TypeIndex,
    pub statements: Vec<StatementIndex>,
}

#[derive(Clone, Copy, Debug, PartialEq, Eq, Structural)]
pub enum StructKind {
    Struct,
    Actor,
}

#[derive(Clone, Copy, Debug, PartialEq, Eq, Structural)]
pub enum FunctionKind {
    Function,
    Behaviour,
}

/// A top-level declaration.
#[derive(Clone, Debug)]
pub enum Node {
    TypeAlias { access: Access, unique: bool, name: String, value: TypeIndex },
    Variable { access: Access, name: TypedName, value: Option<ExpressionIndex> },
    Function(AstFunction),
    FunctionPrototype {
        name: String,
        kind: FunctionKind,
        type_params: Vec<TypedName>,
        params: Vec<TypedName>,
        return_type: TypeIndex,
    },
    Struct {
        access: Access,
        kind: StructKind,
        name: String,
        params: Vec<TypedName>,
        children: Vec<NodeIndex>,
    },
    Enum { access: Access, name: String, params: Vec<TypedName>, variants: Vec<EnumVariant> },
    Interface { access: Access, name: String, params: Vec<TypedName>, children: Vec<NodeIndex> },
    /// A declaration that failed to parse.
    Error,
}

#[derive(Clone, Debug)]
pub struct EnumVariant {
    pub name: String,
    pub params: Vec<TypedName>,
}

#[derive(Clone, Debug)]
pub enum Statement {
    /// A conditional; `else_if` is the statement of the `else` branch.
    If { condition: ExpressionIndex, body: Vec<StatementIndex>, else_if: Option<StatementIndex> },
    Call { function: ExpressionIndex, args: Vec<ExpressionIndex> },
    Let { name: TypedName, value: ExpressionIndex },
    Assign { name: String, value: ExpressionIndex },
    Return { value: ExpressionIndex },
    Unsafe { body: Vec<StatementIndex> },
}

#[derive(Clone, Debug)]
pub enum Expression {
    Ref(String),
    NatLiteral(i64),
    BoolLiteral(bool),
    BinOp(ExpressionIndex, BinOpType, ExpressionIndex),
    FieldAccessor { aggregate: ExpressionIndex, value: ExpressionIndex },
    FunctionCall { function: ExpressionIndex, args: Vec<ExpressionIndex> },
    New { typ: TypeIndex, allocator: ExpressionIndex },
    Dereference { pointer: ExpressionIndex },
    Denull { optional: ExpressionIndex },
    Borrow { value: ExpressionIndex },
    Unsafe { value: ExpressionIndex },
}

/// Slot numbers of expressions, in brackets, joined by `, `.
pub open spec fn slot_list_text(xs: Seq<ExpressionIndex>) -> Seq<char> {
    "["@ + slots_joined(xs) + "]"@
}

/// Slot numbers joined by `, `.
pub open spec fn slots_joined(xs: Seq<ExpressionIndex>) -> Seq<char>
    decreases xs.len(),
{
    if xs.len() == 0 {
        Seq::empty()
    } else {
        let sep = if xs.len() > 1 { ", "@ } else { Seq::empty() };
        slots_joined(xs.drop_last()) + sep + decimal_text(xs.last().slot as nat)
    }
}

/// `#n`, for the slot `n` of an index.
pub open spec fn slot_ref(i: Idx) -> Seq<char> {
    "#"@ + decimal_text(i.slot as nat)
}

/// The short form of an expression: leaves as written, operands by slot number.
pub open spec fn expr_display(e: Expression) -> Seq<char> {
    match e {
        Expression::Ref(r) => r@,
        Expression::NatLiteral(n) => signed_text(n as int),
        Expression::BoolLiteral(b) => if b { "true"@ } else { "false"@ },
        Expression::BinOp(a, o, b) => slot_ref(a) + " "@ + binop_text(o) + " "@ + slot_ref(b),
        Expression::FieldAccessor { aggregate, value } => slot_ref(aggregate) + "."@ + decimal_text(value.slot as nat),
        Expression::FunctionCall { function, args } => slot_ref(function) + "("@ + slot_list_text(args@) + ")"@,
        Expression::New { typ, allocator } => "new "@ + slot_ref(typ) + " in "@ + slot_ref(allocator),
        Expression::Dereference { pointer } => decimal_text(pointer.slot as nat) + ".*"@,
        Expression::Denull { optional } => decimal_text(optional.slot as nat) + ".?"@,
        Expression::Borrow { value } => decimal_text(value.slot as nat) + ".&"@,
        Expression::Unsafe { value } => "unsafe "@ + decimal_text(value.slot as nat),
    }
}

/// The long form of an expression: operators, field accesses and allocations of
/// a named type written out with their operands in long form, nested at most
/// `fuel` deep; anything else, or an operand that resolves to nothing, in short
/// form.
pub open spec fn expr_text(p: ProgramArena, e: Expression, fuel: nat) -> Seq<char>
    decreases fuel,
{
    let ex = p.expression_arena@;
    match e {
        Expression::BinOp(a, o, b) => if fuel > 0 && ex.contains_key(a) && ex.contains_key(b) {
            "("@ + expr_text(p, ex[a], (fuel - 1) as nat) + " "@ + binop_text(o) + " "@ + expr_text(p, ex[b], (fuel - 1) as nat) + ")"@
        } else {
            expr_display(e)
        },
        Expression::FieldAccessor { aggregate, value } => if fuel > 0 && ex.contains_key(aggregate) && ex.contains_key(value) {
            expr_text(p, ex[aggregate], (fuel - 1) as nat) + "."@ + expr_text(p, ex[value], (fuel - 1) as nat)
        } else {
            expr_display(e)
        },
        Expression::New { typ, allocator } => if fuel > 0 && ex.contains_key(allocator) && p.type_arena@.contains_key(typ)
            && p.type_arena@[typ] is Base {
            let name = p.type_arena@[typ]->Base_0;
            "new "@ + type_name_text(name.path@, name.name@, name.arguments@) + " in "@ + expr_text(p, ex[allocator], (fuel - 1) as nat)
        } else {
            expr_display(e)
        },
        _ => expr_display(e),
    }
}

fn slot_ref_string(i: Idx) -> (r: String)
    ensures
        r@ == slot_ref(i),
{
    let mut s = String::from_str("#");
    let d = decimal(i.slot as u64);
    s.append(d.as_str());
    s
}

impl Expression {
    /// The short form of the expression.
    pub fn display(&self) -> (r: String)
        ensures
            r@ == expr_display(*self),
    {
        match self {
            Expression::Ref(r) => r.clone(),
            Expression::NatLiteral(n) => signed_decimal(*n),
            Expression::BoolLiteral(b) => String::from_str(if *b { "true" } else { "false" }),
            Expression::BinOp(a, o, b) => {
                let mut s = slot_ref_string(*a);
                s.append(" ");
                let op = o.to_string();
                s.append(op.as_str());
                s.append(" ");
                let y = slot_ref_string(*b);
                s.append(y.as_str());
                s
            },
            Expression::FieldAccessor { aggregate, value } => {
                let mut s = slot_ref_string(*aggregate);
                s.append(".");
                let v = decimal(value.slot as u64);
                s.append(v.as_str());
                s
            },
            Expression::FunctionCall { function, args } => {
                let mut s = slot_ref_string(*function);
                s.append("([");
                let ghost head = s@;
                let mut k: usize = 0;
                while k < args.len()
                    invariant
                        k <= args@.len(),
                        s@ == head + slots_joined(args@.take(k as int)),
                    decreases args@.len() - k,
                {
                    proof {
                        assert(args@.take(k + 1).drop_last() =~= args@.take(k as int));
                    }
                    if k > 0 {
                        s.append(", ");
                    }
                    let d = decimal(args[k].slot as u64);
                    s.append(d.as_str());
                    k = k + 1;
                }
                proof {
                    assert(args@.take(args@.len() as int) =~= args@);
                    reveal_strlit("([");
                    reveal_strlit("(");
                    reveal_strlit("[");
                    reveal_strlit("])");
                    reveal_strlit("]");
                    reveal_strlit(")");
                }
                s.append("])");
                s
            },
            Expression::New { typ, allocator } => {
                let mut s = String::from_str("new ");
                let t = slot_ref_string(*typ);
                s.append(t.as_str());
                s.append(" in ");
                let a = slot_ref_string(*allocator);
                s.append(a.as_str());
                s
            },
            Expression::Dereference { pointer } => {
                let mut s = decimal(pointer.slot as u64);
                s.append(".*");
                s
            },
            Expression::Denull { optional } => {
                let mut s = decimal(optional.slot as u64);
                s.append(".?");
                s
            },
            Expression::Borrow { value } => {
                let mut s = decimal(value.slot as u64);
                s.append(".&");
                s
            },
            Expression::Unsafe { value } => {
                let mut s = String::from_str("unsafe ");
                let d = decimal(value.slot as u64);
                s.append(d.as_str());
                s
            },
        }
    }

    /// The long form of the expression, with operands read from `program_arena`.
    pub fn to_string(&self, program_arena: &ProgramArena) -> (r: String)
        requires
            program_arena.expression_arena.wf(),
        ensures
            r@ == expr_text(*program_arena, *self, program_arena.expression_arena@.len()),
    {
        let n = program_arena.expression_arena.len();
        self.text_within(program_arena, n)
    }

    fn text_within(&self, program_arena: &ProgramArena, fuel: usize) -> (r: String)
        ensures
            r@ == expr_text(*program_arena, *self, fuel as nat),
        decreases fuel,
    {
        if fuel == 0 {
            return self.display();
        }
        let exprs = &program_arena.expression_arena;
        match self {
            Expression::BinOp(a, o, b) => match (exprs.get(*a), exprs.get(*b)) {
                (Some(x), Some(y)) => {
                    let mut s = String::from_str("(");
                    let xt = x.text_within(program_arena, fuel - 1);
                    s.append(xt.as_str());
                    s.append(" ");
                    let op = o.to_string();
                    s.append(op.as_str());
                    s.append(" ");
                    let yt = y.text_within(program_arena, fuel - 1);
                    s.append(yt.as_str());
                    s.append(")");
                    s
                },
                _ => self.display(),
            },
            Expression::FieldAccessor { aggregate, value } => match (exprs.get(*aggregate), exprs.get(*value)) {
                (Some(x), Some(y)) => {
                    let mut s = x.text_within(program_arena, fuel - 1);
                    s.append(".");
                    let yt = y.text_within(program_arena, fuel - 1);
                    s.append(yt.as_str());
                    s
                },
                _ => self.display(),
            },
            Expression::New { typ, allocator } => match (exprs.get(*allocator), program_arena.type_arena.get(*typ)) {
                (Some(x), Some(Type::Base(name))) => {
                    let mut s = String::from_str("new ");
                    let t = name.to_string();
                    s.append(t.as_str());
                    s.append(" in ");
                    let at = x.text_within(program_arena, fuel - 1);
                    s.append(at.as_str());
                    s
                },
                _ => self.display(),
            },
            _ => self.display(),
        }
    }
}

#[derive(Clone, Copy, Debug, PartialEq, Eq, Structural)]
pub enum BinOpType {
    Plus,
    Minus,
    Star,
    ForwardSlash,
    LessThan,
    GreaterThan,
    LessThanEqualTo,
    GreaterThanEqualTo,
    And,
    Or,
}

/// The operator as written in the source.
pub open spec fn binop_text(op: BinOpType) -> Seq<char> {
    match op {
        BinOpType::Plus => "+"@,
        BinOpType::Minus => "-"@,
        BinOpType::Star => "*"@,
        BinOpType::ForwardSlash => "/"@,
        BinOpType::LessThan => "<"@,
        BinOpType::GreaterThan => ">"@,
        BinOpType::LessThanEqualTo => "<="@,
        BinOpType::GreaterThanEqualTo => ">="@,
        BinOpType::And => "and"@,
        BinOpType::Or => "or"@,
    }
}

impl BinOpType {
    /// The operator as written in the source.
    pub fn to_string(&self) -> (r: String)
        ensures
            r@ == binop_text(*self),
    {
        String::from_str(
            match self {
                BinOpType::Plus => "+",
                BinOpType::Minus => "-",
                BinOpType::Star => "*",
                BinOpType::ForwardSlash => "/",
                BinOpType::LessThan => "<",
                BinOpType::GreaterThan => ">",
                BinOpType::LessThanEqualTo => "<=",
                BinOpType::GreaterThanEqualTo => ">=",
                BinOpType::And => "and",
                BinOpType::Or => "or",
            },
        )
    }
}

} // verus!
