//! Lowering of a program's syntax tree into the IR of one module.
use vstd::prelude::*;
use crate::arena::{lemma_walk_is_live, Idx};
use crate::ast::{
    AstFunction, Expression, LoweringError, Node, Program, ProgramArena, Statement, Type, TypeIndex, TypedName,
};
use crate::ir::{
    access_of, arenas_grow, block_refs_resolve, float_ty_named, instruction_refs_resolve, int_ty_named,
    lemma_wf_grow, lemma_wf_unfold, node_refs_resolve, type_refs_resolve, uint_ty_named, Access, FloatTy, IntTy,
    IrBlock, IrBlockIndex, IrFunction, IrInstruction, IrInstructionIndex, IrNode, IrNodeIndex, IrType, IrTypeIndex,
    IrTypedName, Module, ModuleArena, UIntTy,
};

verus! {

/// The model of a module's arenas that the lowering relations speak of.
pub struct IrMaps {
    pub types: Map<Idx, IrType>,
    pub instructions: Map<Idx, IrInstruction>,
}

/// The maps of a module's type and instruction arenas.
pub open spec fn maps_of(m: ModuleArena) -> IrMaps {
    IrMaps { types: m.type_arena@, instructions: m.instruction_arena@ }
}

/// `b` holds everything `a` holds.
pub open spec fn maps_grow(a: IrMaps, b: IrMaps) -> bool {
    &&& forall|k: Idx| #[trigger] a.types.contains_key(k) ==> b.types.contains_key(k) && b.types[k] == a.types[k]
    &&& forall|k: Idx| #[trigger] a.instructions.contains_key(k) ==> b.instructions.contains_key(k)
        && b.instructions[k] == a.instructions[k]
}

/// Every index of the chain of reference types from `t` resolves, and the chain
/// has fewer than `fuel` links before it ends in a type that is not a reference.
pub open spec fn type_ok(p: ProgramArena, t: TypeIndex, fuel: nat) -> bool
    decreases fuel,
{
    p.type_arena@.contains_key(t) && match p.type_arena@[t] {
        Type::Reference(inner, _, _) => fuel > 0 && type_ok(p, inner, (fuel - 1) as nat),
        _ => true,
    }
}

/// The IR type of a base type's name: a primitive numeric type, the canonical
/// `Void`, or the canonical `Unknown`.
pub open spec fn lowers_base(m: IrMaps, void: Idx, unknown: Idx, name: Seq<char>, r: Idx) -> bool {
    if int_ty_named(name) is Some {
        m.types.contains_key(r) && m.types[r] == IrType::Int(int_ty_named(name).unwrap())
    } else if uint_ty_named(name) is Some {
        m.types.contains_key(r) && m.types[r] == IrType::UInt(uint_ty_named(name).unwrap())
    } else if float_ty_named(name) is Some {
        m.types.contains_key(r) && m.types[r] == IrType::Float(float_ty_named(name).unwrap())
    } else if name == "Void"@ {
        r == void
    } else {
        r == unknown
    }
}

/// `r` is an IR type that translates the source type `t`: a reference keeps its
/// pointer kind and capability around the translation of its referent; a base
/// type goes by its name; every other type is the canonical `Unknown`.
pub open spec fn lowers_type(p: ProgramArena, m: IrMaps, void: Idx, unknown: Idx, t: TypeIndex, r: Idx, fuel: nat) -> bool
    decreases fuel,
{
    if !p.type_arena@.contains_key(t) {
        false
    } else {
        match p.type_arena@[t] {
            Type::Base(name) => lowers_base(m, void, unknown, name.name@, r),
            Type::Reference(inner, kind, cap) => fuel > 0 && m.types.contains_key(r) && match m.types[r] {
                IrType::Reference(ir_inner, ir_kind, ir_cap) => ir_kind == kind && ir_cap == cap
                    && lowers_type(p, m, void, unknown, inner, ir_inner, (fuel - 1) as nat),
                _ => false,
            },
            _ => r == unknown,
        }
    }
}

/// A translation stays one as the module grows.
pub proof fn lemma_lowers_type_grow(p: ProgramArena, a: IrMaps, b: IrMaps, void: Idx, unknown: Idx, t: TypeIndex, r: Idx, fuel: nat)
    requires
        maps_grow(a, b),
        lowers_type(p, a, void, unknown, t, r, fuel),
    ensures
        lowers_type(p, b, void, unknown, t, r, fuel),
    decreases fuel,
{
    if p.type_arena@.contains_key(t) {
        match p.type_arena@[t] {
            Type::Base(name) => {
                if int_ty_named(name.name@) is Some || uint_ty_named(name.name@) is Some || float_ty_named(name.name@) is Some {
                    assert(a.types.contains_key(r));
                    assert(b.types[r] == a.types[r]);
                }
            },
            Type::Reference(inner, kind, cap) => {
                assert(b.types[r] == a.types[r]);
                match a.types[r] {
                    IrType::Reference(ir_inner, _, _) => {
                        lemma_lowers_type_grow(p, a, b, void, unknown, inner, ir_inner, (fuel - 1) as nat);
                    },
                    _ => {},
                }
            },
            _ => {},
        }
    }
}

/// Every expression reachable from `e` resolves, no path from `e` is `fuel`
/// expressions long, and every type that a `new` names is fine for `tfuel`.
pub open spec fn expr_ok(p: ProgramArena, e: Idx, fuel: nat, tfuel: nat) -> bool
    decreases fuel,
{
    fuel > 0 && p.expression_arena@.contains_key(e) && match p.expression_arena@[e] {
        Expression::BinOp(a, _, b) => expr_ok(p, a, (fuel - 1) as nat, tfuel) && expr_ok(p, b, (fuel - 1) as nat, tfuel),
        Expression::FieldAccessor { aggregate, value } => expr_ok(p, aggregate, (fuel - 1) as nat, tfuel)
            && expr_ok(p, value, (fuel - 1) as nat, tfuel),
        Expression::FunctionCall { function, args } => expr_ok(p, function, (fuel - 1) as nat, tfuel)
            && forall|k: int| 0 <= k < args@.len() ==> expr_ok(p, #[trigger] args@[k], (fuel - 1) as nat, tfuel),
        Expression::New { typ, allocator } => expr_ok(p, allocator, (fuel - 1) as nat, tfuel) && type_ok(p, typ, tfuel),
        Expression::Dereference { pointer } => expr_ok(p, pointer, (fuel - 1) as nat, tfuel),
        Expression::Denull { optional } => expr_ok(p, optional, (fuel - 1) as nat, tfuel),
        Expression::Borrow { value } => expr_ok(p, value, (fuel - 1) as nat, tfuel),
        Expression::Unsafe { value } => expr_ok(p, value, (fuel - 1) as nat, tfuel),
        _ => true,
    }
}

/// The instruction `r` computes the expression `e`: it is the instruction of the
/// same kind and shape, and each operand is an instruction that computes the
/// matching sub-expression.
pub open spec fn lowers_expr(p: ProgramArena, m: IrMaps, void: Idx, unknown: Idx, e: Idx, r: Idx, fuel: nat, tfuel: nat) -> bool
    decreases fuel, 1nat,
{
    fuel > 0 && p.expression_arena@.contains_key(e) && m.instructions.contains_key(r)
        && computes(p, m, void, unknown, p.expression_arena@[e], m.instructions[r], (fuel - 1) as nat, tfuel)
}

/// The instruction `ins` has the kind and shape of the expression `exp`, and
/// each of its operands computes the matching sub-expression within `fuel`.
pub open spec fn computes(p: ProgramArena, m: IrMaps, void: Idx, unknown: Idx, exp: Expression, ins: IrInstruction, fuel: nat, tfuel: nat) -> bool
    decreases fuel + 1, 0nat,
{
    match exp {
        Expression::Ref(s) => match ins {
            IrInstruction::Ref(t) => t@ == s@,
            _ => false,
        },
        Expression::NatLiteral(n) => ins == IrInstruction::NatLiteral(n),
        Expression::BoolLiteral(b) => ins == IrInstruction::BoolLiteral(b),
        Expression::BinOp(a, op, b) => match ins {
            IrInstruction::BinOp(x, ir_op, y) => ir_op == op
                && lowers_expr(p, m, void, unknown, a, x, fuel, tfuel)
                && lowers_expr(p, m, void, unknown, b, y, fuel, tfuel),
            _ => false,
        },
        Expression::FieldAccessor { aggregate, value } => match ins {
            IrInstruction::FieldAccessor { aggregate: x, value: y } =>
                lowers_expr(p, m, void, unknown, aggregate, x, fuel, tfuel)
                && lowers_expr(p, m, void, unknown, value, y, fuel, tfuel),
            _ => false,
        },
        Expression::FunctionCall { function, args } => match ins {
            IrInstruction::FunctionCall { function: f, args: xs } =>
                lowers_expr(p, m, void, unknown, function, f, fuel, tfuel)
                && xs@.len() == args@.len()
                && forall|k: int| 0 <= k < args@.len() ==>
                    lowers_expr(p, m, void, unknown, #[trigger] args@[k], xs@[k], fuel, tfuel),
            _ => false,
        },
        Expression::New { typ, allocator } => match ins {
            IrInstruction::New { typ: t, allocator: a } =>
                lowers_expr(p, m, void, unknown, allocator, a, fuel, tfuel)
                && lowers_type(p, m, void, unknown, typ, t, tfuel),
            _ => false,
        },
        Expression::Dereference { pointer } => match ins {
            IrInstruction::Dereference { pointer: x } => lowers_expr(p, m, void, unknown, pointer, x, fuel, tfuel),
            _ => false,
        },
        Expression::Denull { optional } => match ins {
            IrInstruction::Denull { optional: x } => lowers_expr(p, m, void, unknown, optional, x, fuel, tfuel),
            _ => false,
        },
        Expression::Borrow { value } => match ins {
            IrInstruction::Borrow { value: x } => lowers_expr(p, m, void, unknown, value, x, fuel, tfuel),
            _ => false,
        },
        Expression::Unsafe { value } => match ins {
            IrInstruction::Unsafe { value: x } => lowers_expr(p, m, void, unknown, value, x, fuel, tfuel),
            _ => false,
        },
    }
}

/// An instruction that computes an expression still does as the module grows.
pub proof fn lemma_lowers_expr_grow(
    p: ProgramArena,
    a: IrMaps,
    b: IrMaps,
    void: Idx,
    unknown: Idx,
    e: Idx,
    r: Idx,
    fuel: nat,
    tfuel: nat,
)
    requires
        maps_grow(a, b),
        lowers_expr(p, a, void, unknown, e, r, fuel, tfuel),
    ensures
        lowers_expr(p, b, void, unknown, e, r, fuel, tfuel),
    decreases fuel, 1nat,
{
    assert(b.instructions[r] == a.instructions[r]);
    lemma_computes_grow(p, a, b, void, unknown, p.expression_arena@[e], a.instructions[r], (fuel - 1) as nat, tfuel);
}

/// An instruction keeps computing an expression as the module grows.
pub proof fn lemma_computes_grow(
    p: ProgramArena,
    a: IrMaps,
    b: IrMaps,
    void: Idx,
    unknown: Idx,
    exp: Expression,
    ins: IrInstruction,
    f: nat,
    tfuel: nat,
)
    requires
        maps_grow(a, b),
        computes(p, a, void, unknown, exp, ins, f, tfuel),
    ensures
        computes(p, b, void, unknown, exp, ins, f, tfuel),
    decreases f + 1, 0nat,
{
    match exp {
        Expression::BinOp(x, _, y) => match ins {
            IrInstruction::BinOp(u, _, v) => {
                lemma_lowers_expr_grow(p, a, b, void, unknown, x, u, f, tfuel);
                lemma_lowers_expr_grow(p, a, b, void, unknown, y, v, f, tfuel);
            },
            _ => {},
        },
        Expression::FieldAccessor { aggregate, value } => match ins {
            IrInstruction::FieldAccessor { aggregate: u, value: v } => {
                lemma_lowers_expr_grow(p, a, b, void, unknown, aggregate, u, f, tfuel);
                lemma_lowers_expr_grow(p, a, b, void, unknown, value, v, f, tfuel);
            },
            _ => {},
        },
        Expression::FunctionCall { function, args } => match ins {
            IrInstruction::FunctionCall { function: u, args: xs } => {
                lemma_lowers_expr_grow(p, a, b, void, unknown, function, u, f, tfuel);
                assert forall|k: int| 0 <= k < args@.len() implies
                    lowers_expr(p, b, void, unknown, #[trigger] args@[k], xs@[k], f, tfuel) by {
                    lemma_lowers_expr_grow(p, a, b, void, unknown, args@[k], xs@[k], f, tfuel);
                }
            },
            _ => {},
        },
        Expression::New { typ, allocator } => match ins {
            IrInstruction::New { typ: t, allocator: u } => {
                lemma_lowers_expr_grow(p, a, b, void, unknown, allocator, u, f, tfuel);
                lemma_lowers_type_grow(p, a, b, void, unknown, typ, t, tfuel);
            },
            _ => {},
        },
        Expression::Dereference { pointer } => match ins {
            IrInstruction::Dereference { pointer: u } => lemma_lowers_expr_grow(p, a, b, void, unknown, pointer, u, f, tfuel),
            _ => {},
        },
        Expression::Denull { optional } => match ins {
            IrInstruction::Denull { optional: u } => lemma_lowers_expr_grow(p, a, b, void, unknown, optional, u, f, tfuel),
            _ => {},
        },
        Expression::Borrow { value } => match ins {
            IrInstruction::Borrow { value: u } => lemma_lowers_expr_grow(p, a, b, void, unknown, value, u, f, tfuel),
            _ => {},
        },
        Expression::Unsafe { value } => match ins {
            IrInstruction::Unsafe { value: u } => lemma_lowers_expr_grow(p, a, b, void, unknown, value, u, f, tfuel),
            _ => {},
        },
        _ => {},
    }
}

/// How many instructions lowering the expression `e` appends: one for each
/// expression of its tree.
pub open spec fn expr_count(p: ProgramArena, e: Idx, fuel: nat) -> nat
    decreases fuel, 0nat, 0nat,
{
    if fuel == 0 || !p.expression_arena@.contains_key(e) {
        0
    } else {
        let f = (fuel - 1) as nat;
        1 + match p.expression_arena@[e] {
            Expression::BinOp(a, _, b) => expr_count(p, a, f) + expr_count(p, b, f),
            Expression::FieldAccessor { aggregate, value } => expr_count(p, aggregate, f) + expr_count(p, value, f),
            Expression::FunctionCall { function, args } => expr_count(p, function, f) + args_count(p, args@, f),
            Expression::New { allocator, .. } => expr_count(p, allocator, f),
            Expression::Dereference { pointer } => expr_count(p, pointer, f),
            Expression::Denull { optional } => expr_count(p, optional, f),
            Expression::Borrow { value } => expr_count(p, value, f),
            Expression::Unsafe { value } => expr_count(p, value, f),
            _ => 0,
        }
    }
}

/// How many instructions lowering the expressions `args` in turn appends.
pub open spec fn args_count(p: ProgramArena, args: Seq<Idx>, fuel: nat) -> nat
    decreases fuel, 1nat, args.len(),
{
    if args.len() == 0 {
        0
    } else {
        args_count(p, args.drop_last(), fuel) + expr_count(p, args.last(), fuel)
    }
}

/// `b` keeps every element of `a` in place and may have more after them.
pub open spec fn list_extends(a: Seq<Idx>, b: Seq<Idx>) -> bool {
    a.len() <= b.len() && forall|k: int| 0 <= k < a.len() ==> #[trigger] b[k] == a[k]
}

/// From `a` to `b` the lowering only added types and instructions and appended
/// instructions to `block`; it read the same program and made no block.
pub open spec fn grows_in_block(a: IrBuilderContext, b: IrBuilderContext, block: Idx) -> bool {
    &&& b.program == a.program
    &&& b.void_index == a.void_index
    &&& b.unknown_index == a.unknown_index
    &&& b.blocks == a.blocks
    &&& maps_grow(a.maps(), b.maps())
    &&& b.module_arena.node_arena == a.module_arena.node_arena
    &&& b.module_arena.block_arena@.dom() == a.module_arena.block_arena@.dom()
    &&& forall|x: Idx| #[trigger] a.module_arena.block_arena@.contains_key(x) && x != block ==>
        b.module_arena.block_arena@[x] == a.module_arena.block_arena@[x]
    &&& list_extends(a.module_arena.block_arena@[block].instructions@, b.module_arena.block_arena@[block].instructions@)
}

/// Growth within one block keeps every block's instructions in place.
pub proof fn lemma_grows_in_block_extend(a: IrBuilderContext, b: IrBuilderContext, block: Idx)
    requires
        grows_in_block(a, b, block),
    ensures
        blocks_extend(a.module_arena, b.module_arena),
        maps_grow(maps_of(a.module_arena), maps_of(b.module_arena)),
{
    lemma_grows_in_block_from(a, b, block);
    lemma_grows_from_extend(a, b, block);
}

/// Growth within one block chains.
pub proof fn lemma_grows_in_block_trans(a: IrBuilderContext, b: IrBuilderContext, c: IrBuilderContext, block: Idx)
    requires
        grows_in_block(a, b, block),
        grows_in_block(b, c, block),
    ensures
        grows_in_block(a, c, block),
{
    assert forall|x: Idx| #[trigger] a.module_arena.block_arena@.contains_key(x) && x != block implies
        c.module_arena.block_arena@[x] == a.module_arena.block_arena@[x] by {
        assert(b.module_arena.block_arena@.contains_key(x));
    }
}

/// Every statement reachable from `s` resolves, no path of nested statements
/// from `s` is `fuel` long, and every expression that lowering reads is fine.
pub open spec fn stmt_ok(p: ProgramArena, s: Idx, fuel: nat, efuel: nat, tfuel: nat) -> bool
    decreases fuel,
{
    fuel > 0 && p.statement_arena@.contains_key(s) && match p.statement_arena@[s] {
        Statement::If { condition, body, else_if } => {
            &&& expr_ok(p, condition, efuel, tfuel)
            &&& forall|k: int| 0 <= k < body@.len() ==> stmt_ok(p, #[trigger] body@[k], (fuel - 1) as nat, efuel, tfuel)
            &&& match else_if {
                Some(x) => stmt_ok(p, x, (fuel - 1) as nat, efuel, tfuel),
                None => true,
            }
        },
        Statement::Call { function, args } => expr_ok(p, function, efuel, tfuel)
            && forall|k: int| 0 <= k < args@.len() ==> expr_ok(p, #[trigger] args@[k], efuel, tfuel),
        Statement::Return { value } => expr_ok(p, value, efuel, tfuel),
        _ => true,
    }
}

/// From `a` to `b` the lowering only added types, instructions and blocks,
/// appended instructions to the block `cur` and to new blocks, and counted every
/// new block among the function's blocks.
pub open spec fn grows_from(a: IrBuilderContext, b: IrBuilderContext, cur: Idx) -> bool {
    &&& b.program == a.program
    &&& b.void_index == a.void_index
    &&& b.unknown_index == a.unknown_index
    &&& maps_grow(a.maps(), b.maps())
    &&& b.module_arena.node_arena == a.module_arena.node_arena
    &&& forall|x: Idx| #[trigger] a.module_arena.block_arena@.contains_key(x) ==> b.module_arena.block_arena@.contains_key(x)
    &&& forall|x: Idx| #[trigger] a.module_arena.block_arena@.contains_key(x) && x != cur ==>
        b.module_arena.block_arena@[x] == a.module_arena.block_arena@[x]
    &&& list_extends(a.module_arena.block_arena@[cur].instructions@, b.module_arena.block_arena@[cur].instructions@)
    &&& list_extends(a.blocks@, b.blocks@)
    &&& forall|x: Idx| #[trigger] b.module_arena.block_arena@.contains_key(x) && !a.module_arena.block_arena@.contains_key(x)
        ==> b.blocks@.contains(x)
}

/// Growth chains when the second step starts from the same block or from a
/// block that did not exist before the first.
pub proof fn lemma_grows_from_trans(a: IrBuilderContext, b: IrBuilderContext, c: IrBuilderContext, cur: Idx, next: Idx)
    requires
        grows_from(a, b, cur),
        grows_from(b, c, next),
        next == cur || !a.module_arena.block_arena@.contains_key(next),
        a.module_arena.block_arena@.contains_key(cur),
    ensures
        grows_from(a, c, cur),
{
    assert forall|x: Idx| #[trigger] c.module_arena.block_arena@.contains_key(x) && !a.module_arena.block_arena@.contains_key(x)
        implies c.blocks@.contains(x) by {
        if b.module_arena.block_arena@.contains_key(x) {
            let j = choose|j: int| 0 <= j < b.blocks@.len() && b.blocks@[j] == x;
            assert(c.blocks@[j] == x);
        }
    }
    assert forall|x: Idx| #[trigger] a.module_arena.block_arena@.contains_key(x) && x != cur implies
        c.module_arena.block_arena@[x] == a.module_arena.block_arena@[x] by {
        assert(b.module_arena.block_arena@.contains_key(x));
    }
    assert(b.module_arena.block_arena@.contains_key(cur));
    assert forall|k: int| 0 <= k < a.blocks@.len() implies #[trigger] c.blocks@[k] == a.blocks@[k] by {
        assert(b.blocks@[k] == a.blocks@[k]);
    }
}

/// Growth keeps every block's instructions in place.
pub proof fn lemma_grows_from_extend(a: IrBuilderContext, b: IrBuilderContext, cur: Idx)
    requires
        grows_from(a, b, cur),
    ensures
        blocks_extend(a.module_arena, b.module_arena),
        maps_grow(maps_of(a.module_arena), maps_of(b.module_arena)),
{
    assert forall|x: Idx| #[trigger] a.module_arena.block_arena@.contains_key(x) implies b.module_arena.block_arena@.contains_key(x)
        && list_extends(a.module_arena.block_arena@[x].instructions@, b.module_arena.block_arena@[x].instructions@) by {
        if x != cur {
            assert(b.module_arena.block_arena@[x] == a.module_arena.block_arena@[x]);
        }
    }
}

/// Growth within one block is growth.
pub proof fn lemma_grows_in_block_from(a: IrBuilderContext, b: IrBuilderContext, cur: Idx)
    requires
        grows_in_block(a, b, cur),
    ensures
        grows_from(a, b, cur),
{
    assert forall|x: Idx| #[trigger] a.module_arena.block_arena@.contains_key(x) implies b.module_arena.block_arena@.contains_key(x) by {
        assert(b.module_arena.block_arena@.dom().contains(x));
    }
    assert forall|x: Idx| #[trigger] b.module_arena.block_arena@.contains_key(x) && !a.module_arena.block_arena@.contains_key(x)
        implies b.blocks@.contains(x) by {
        assert(a.module_arena.block_arena@.dom().contains(x));
    }
}

/// Every type that lowering the function reads is fine for `tfuel`, and every
/// statement of its body is fine.
pub open spec fn func_ok(p: ProgramArena, func: AstFunction, sfuel: nat, efuel: nat, tfuel: nat) -> bool {
    &&& forall|k: int| 0 <= k < func.params@.len() && (#[trigger] func.params@[k]).typ is Some
        ==> type_ok(p, func.params@[k].typ.unwrap(), tfuel)
    &&& forall|k: int| 0 <= k < func.statements@.len() ==> stmt_ok(p, #[trigger] func.statements@[k], sfuel, efuel, tfuel)
    &&& type_ok(p, func.return_type, tfuel)
}

/// A parameter keeps its name; its type is the canonical `Void` where it has no
/// annotation, and the translation of the annotation otherwise.
pub open spec fn lowers_param(p: ProgramArena, m: IrMaps, void: Idx, unknown: Idx, param: TypedName, ir: IrTypedName, tfuel: nat) -> bool {
    &&& ir.name@ == param.name@
    &&& match param.typ {
        None => ir.typ == void,
        Some(t) => lowers_type(p, m, void, unknown, t, ir.typ, tfuel),
    }
}

/// The IR function `f` is the lowering of `func`: same access and name,
/// parameters and return type translated, no type parameters, and at least the
/// entry block.
pub open spec fn lowers_function(p: ProgramArena, m: IrMaps, void: Idx, unknown: Idx, func: AstFunction, f: IrFunction, tfuel: nat) -> bool {
    &&& f.access == access_of(func.access)
    &&& f.name@ == func.name@
    &&& f.params@.len() == func.params@.len()
    &&& forall|k: int| 0 <= k < func.params@.len() ==> lowers_param(p, m, void, unknown, #[trigger] func.params@[k], f.params@[k], tfuel)
    &&& f.type_params@.len() == 0
    &&& lowers_type(p, m, void, unknown, func.return_type, f.return_type, tfuel)
    &&& f.blocks@.len() > 0
}

/// The function of a `Function` declaration.
pub open spec fn function_of(n: Node) -> AstFunction {
    match n {
        Node::Function(f) => f,
        _ => arbitrary(),
    }
}

/// The function of an IR `Function` node.
pub open spec fn ir_function_of(n: IrNode) -> IrFunction {
    match n {
        IrNode::Function(f) => f,
        _ => arbitrary(),
    }
}

/// The indices among `order` that hold a function declaration, in order.
pub open spec fn function_nodes(nodes: Map<Idx, Node>, order: Seq<Idx>) -> Seq<Idx>
    decreases order.len(),
{
    if order.len() == 0 {
        Seq::empty()
    } else {
        let rest = function_nodes(nodes, order.drop_last());
        if nodes[order.last()] is Function {
            rest.push(order.last())
        } else {
            rest
        }
    }
}

/// Every function declaration of the program is fine to lower, with fuels
/// the sizes of the statement, expression and type arenas.
pub open spec fn all_functions_ok(p: ProgramArena) -> bool {
    let fns = function_nodes(p.node_arena@, p.node_arena.order());
    forall|k: int| 0 <= k < fns.len() ==> func_ok(
        p,
        function_of(p.node_arena@[#[trigger] fns[k]]),
        p.statement_arena@.len(),
        p.expression_arena@.len(),
        p.type_arena@.len(),
    )
}

/// The module `m` is the lowering of `program`: it keeps the program's path, name
/// and imports, holds distinct canonical `Void` and `Unknown` types, is
/// consistent, lists every instruction in exactly one place of one block, gives
/// every block to a function, and holds one IR function per function
/// declaration, in the order of the declarations. Each has its declaration's
/// signature translated, and holds its body lowered position by position from
/// the start of its entry block, with nothing after the body's end.
pub open spec fn module_lowers(program: Program, m: Module) -> bool {
    let p = program.program_arena;
    let fns = function_nodes(p.node_arena@, p.node_arena.order());
    let nodes = m.module_arena.node_arena;
    &&& m.module_arena.wf()
    &&& instructions_placed(m.module_arena)
    &&& listed_once(m.module_arena)
    &&& m.path == program.path
    &&& m.name == program.file_name
    &&& m.imports == program.imports
    &&& m.void_index != m.unknown_index
    &&& m.module_arena.type_arena@.contains_key(m.void_index)
    &&& m.module_arena.type_arena@[m.void_index] == IrType::Void
    &&& m.module_arena.type_arena@.contains_key(m.unknown_index)
    &&& m.module_arena.type_arena@[m.unknown_index] == IrType::Unknown
    &&& nodes.order().len() == fns.len()
    &&& forall|x: Idx| #[trigger] m.module_arena.block_arena@.contains_key(x) ==> exists|k: int|
        0 <= k < fns.len() && #[trigger] ir_function_of(nodes@[nodes.order()[k]]).blocks@.contains(x)
    &&& forall|k: int| 0 <= k < fns.len() ==> {
        &&& nodes@[#[trigger] nodes.order()[k]] is Function
        &&& lowers_function(
            p,
            maps_of(m.module_arena),
            m.void_index,
            m.unknown_index,
            function_of(p.node_arena@[fns[k]]),
            ir_function_of(nodes@[nodes.order()[k]]),
            p.type_arena@.len(),
        )
        &&& stmts_at(
            p,
            m.module_arena,
            m.void_index,
            m.unknown_index,
            function_of(p.node_arena@[fns[k]]).statements@,
            ir_function_of(nodes@[nodes.order()[k]]).blocks@[0],
            0,
            p.statement_arena@.len(),
            p.expression_arena@.len(),
            p.type_arena@.len(),
        )
        &&& body_closed(
            p,
            m.module_arena,
            function_of(p.node_arena@[fns[k]]).statements@,
            ir_function_of(nodes@[nodes.order()[k]]).blocks@[0],
            p.statement_arena@.len(),
            p.expression_arena@.len(),
        )
    }
}

/// A lowered body keeps its lowering, and its last block stays closed, when the
/// module grows without touching the blocks it had.
pub proof fn lemma_body_kept(
    p: ProgramArena,
    a: ModuleArena,
    c: ModuleArena,
    void: Idx,
    unknown: Idx,
    stmts: Seq<Idx>,
    b: Idx,
    sfuel: nat,
    efuel: nat,
    tfuel: nat,
)
    requires
        maps_grow(maps_of(a), maps_of(c)),
        forall|x: Idx| #[trigger] a.block_arena@.contains_key(x) ==> c.block_arena@.contains_key(x)
            && c.block_arena@[x] == a.block_arena@[x],
        stmts_at(p, a, void, unknown, stmts, b, 0, sfuel, efuel, tfuel),
        body_closed(p, a, stmts, b, sfuel, efuel),
    ensures
        stmts_at(p, c, void, unknown, stmts, b, 0, sfuel, efuel, tfuel),
        body_closed(p, c, stmts, b, sfuel, efuel),
{
    assert(blocks_extend(a, c)) by {
        assert forall|x: Idx| #[trigger] a.block_arena@.contains_key(x) implies c.block_arena@.contains_key(x)
            && list_extends(a.block_arena@[x].instructions@, c.block_arena@[x].instructions@) by {
            assert(c.block_arena@[x] == a.block_arena@[x]);
        }
    }
    lemma_stmts_at_grow(p, a, c, void, unknown, stmts, b, 0, sfuel, efuel, tfuel);
    let e = stmts_end(p, a, stmts, b, 0, sfuel, efuel);
    assert(c.block_arena@[e.0] == a.block_arena@[e.0]);
}

/// Lowering the statements `stmts` from the start of block `b` ends in a live
/// block, at its last instruction: nothing follows the body there.
pub open spec fn body_closed(p: ProgramArena, m: ModuleArena, stmts: Seq<Idx>, b: Idx, sfuel: nat, efuel: nat) -> bool {
    let e = stmts_end(p, m, stmts, b, 0, sfuel, efuel);
    m.block_arena@.contains_key(e.0) && e.1 == block_list(m, e.0).len()
}

/// The function declarations among a prefix of a walk come first among those of
/// the whole walk.
pub proof fn lemma_function_nodes_prefix(nodes: Map<Idx, Node>, order: Seq<Idx>, i: int)
    requires
        0 <= i <= order.len(),
    ensures
        list_extends(function_nodes(nodes, order.take(i)), function_nodes(nodes, order)),
    decreases order.len() - i,
{
    if i < order.len() {
        lemma_function_nodes_prefix(nodes, order, i + 1);
        assert(order.take(i + 1).drop_last() =~= order.take(i));
        let a = function_nodes(nodes, order.take(i));
        let b = function_nodes(nodes, order.take(i + 1));
        let c = function_nodes(nodes, order);
        assert forall|k: int| 0 <= k < a.len() implies #[trigger] c[k] == a[k] by {
            assert(b[k] == a[k]);
        }
    } else {
        assert(order.take(i) =~= order);
    }
}

/// A lowered function stays one as the module grows.
pub proof fn lemma_lowers_function_grow(p: ProgramArena, a: IrMaps, b: IrMaps, void: Idx, unknown: Idx, func: AstFunction, f: IrFunction, tfuel: nat)
    requires
        maps_grow(a, b),
        lowers_function(p, a, void, unknown, func, f, tfuel),
    ensures
        lowers_function(p, b, void, unknown, func, f, tfuel),
{
    assert forall|k: int| 0 <= k < func.params@.len() implies lowers_param(p, b, void, unknown, #[trigger] func.params@[k], f.params@[k], tfuel) by {
        assert(lowers_param(p, a, void, unknown, func.params@[k], f.params@[k], tfuel));
        if let Some(t) = func.params@[k].typ {
            lemma_lowers_type_grow(p, a, b, void, unknown, t, f.params@[k].typ, tfuel);
        }
    }
    lemma_lowers_type_grow(p, a, b, void, unknown, func.return_type, f.return_type, tfuel);
}

/// Every instruction of the module is listed by some block.
pub open spec fn instructions_placed(m: ModuleArena) -> bool {
    forall|i: Idx| #[trigger] m.instruction_arena@.contains_key(i) ==> exists|b: Idx|
        m.block_arena@.contains_key(b) && #[trigger] m.block_arena@[b].instructions@.contains(i)
}

/// An instruction stored and appended to a live block leaves every
/// instruction placed.
pub proof fn lemma_placed_after_push(a: ModuleArena, c: ModuleArena, block: Idx, index: Idx)
    requires
        instructions_placed(a),
        a.block_arena@.contains_key(block),
        c.instruction_arena@.dom() == a.instruction_arena@.dom().insert(index),
        c.block_arena@ == a.block_arena@.insert(block, c.block_arena@[block]),
        c.block_arena@[block].instructions@ == a.block_arena@[block].instructions@.push(index),
    ensures
        instructions_placed(c),
{
    assert forall|i: Idx| #[trigger] c.instruction_arena@.contains_key(i) implies exists|x: Idx|
        c.block_arena@.contains_key(x) && #[trigger] c.block_arena@[x].instructions@.contains(i) by {
        if i == index {
            let ins = c.block_arena@[block].instructions@;
            assert(ins[ins.len() - 1] == i);
            assert(ins.contains(i));
            assert(c.block_arena@.contains_key(block));
        } else {
            assert(a.instruction_arena@.dom().contains(i));
            let x = choose|x: Idx| a.block_arena@.contains_key(x) && #[trigger] a.block_arena@[x].instructions@.contains(i);
            assert(c.block_arena@.contains_key(x));
            if x == block {
                let j = choose|j: int| 0 <= j < a.block_arena@[x].instructions@.len() && a.block_arena@[x].instructions@[j] == i;
                assert(c.block_arena@[x].instructions@[j] == i);
                assert(c.block_arena@[x].instructions@.contains(i));
            } else {
                assert(c.block_arena@[x] == a.block_arena@[x]);
            }
        }
    }
}

/// The expression `e`, lowered from position `i` of block `b`: its
/// `expr_count` instructions fill the block from `i` on in post-order, each
/// operand's instructions before those of the next, and the last of them is the
/// instruction of `e` itself, whose operands are the last instructions of the
/// operands' own runs.
pub open spec fn expr_at(p: ProgramArena, m: ModuleArena, void: Idx, unknown: Idx, e: Idx, b: Idx, i: int, fuel: nat, tfuel: nat) -> bool
    decreases fuel, 1nat, 0nat,
{
    let bl = block_list(m, b);
    let n = expr_count(p, e, fuel);
    let r = bl[i + n - 1];
    fuel > 0 && p.expression_arena@.contains_key(e) && m.block_arena@.contains_key(b) && 0 <= i && i + n <= bl.len()
        && m.instruction_arena@.contains_key(r)
        && shape_at(p, m, void, unknown, p.expression_arena@[e], m.instruction_arena@[r], b, i, (fuel - 1) as nat, tfuel)
}

/// The instruction `ins` has the kind of `exp`, and its operands are the last
/// instructions of the runs of `exp`'s operands, lowered one after another from
/// position `i` of block `b` within `f`.
pub open spec fn shape_at(p: ProgramArena, m: ModuleArena, void: Idx, unknown: Idx, exp: Expression, ins: IrInstruction, b: Idx, i: int, f: nat, tfuel: nat) -> bool
    decreases f + 1, 0nat, 0nat,
{
    let bl = block_list(m, b);
    match exp {
        Expression::Ref(s) => match ins {
            IrInstruction::Ref(t) => t@ == s@,
            _ => false,
        },
        Expression::NatLiteral(k) => ins == IrInstruction::NatLiteral(k),
        Expression::BoolLiteral(k) => ins == IrInstruction::BoolLiteral(k),
        Expression::BinOp(a, op, c) => match ins {
            IrInstruction::BinOp(x, ir_op, y) => {
                let na = expr_count(p, a, f);
                &&& ir_op == op
                &&& expr_at(p, m, void, unknown, a, b, i, f, tfuel)
                &&& expr_at(p, m, void, unknown, c, b, i + na, f, tfuel)
                &&& x == bl[i + na - 1]
                &&& y == bl[i + na + expr_count(p, c, f) - 1]
            },
            _ => false,
        },
        Expression::FieldAccessor { aggregate, value } => match ins {
            IrInstruction::FieldAccessor { aggregate: x, value: y } => {
                let na = expr_count(p, aggregate, f);
                &&& expr_at(p, m, void, unknown, aggregate, b, i, f, tfuel)
                &&& expr_at(p, m, void, unknown, value, b, i + na, f, tfuel)
                &&& x == bl[i + na - 1]
                &&& y == bl[i + na + expr_count(p, value, f) - 1]
            },
            _ => false,
        },
        Expression::FunctionCall { function, args } => match ins {
            IrInstruction::FunctionCall { function: x, args: xs } => {
                let nf = expr_count(p, function, f);
                &&& expr_at(p, m, void, unknown, function, b, i, f, tfuel)
                &&& x == bl[i + nf - 1]
                &&& args_at(p, m, void, unknown, args@, xs@, b, i + nf, f, tfuel)
            },
            _ => false,
        },
        Expression::New { typ, allocator } => match ins {
            IrInstruction::New { typ: t, allocator: x } => {
                &&& expr_at(p, m, void, unknown, allocator, b, i, f, tfuel)
                &&& x == bl[i + expr_count(p, allocator, f) - 1]
                &&& lowers_type(p, maps_of(m), void, unknown, typ, t, tfuel)
            },
            _ => false,
        },
        Expression::Dereference { pointer } => match ins {
            IrInstruction::Dereference { pointer: x } => expr_at(p, m, void, unknown, pointer, b, i, f, tfuel)
                && x == bl[i + expr_count(p, pointer, f) - 1],
            _ => false,
        },
        Expression::Denull { optional } => match ins {
            IrInstruction::Denull { optional: x } => expr_at(p, m, void, unknown, optional, b, i, f, tfuel)
                && x == bl[i + expr_count(p, optional, f) - 1],
            _ => false,
        },
        Expression::Borrow { value } => match ins {
            IrInstruction::Borrow { value: x } => expr_at(p, m, void, unknown, value, b, i, f, tfuel)
                && x == bl[i + expr_count(p, value, f) - 1],
            _ => false,
        },
        Expression::Unsafe { value } => match ins {
            IrInstruction::Unsafe { value: x } => expr_at(p, m, void, unknown, value, b, i, f, tfuel)
                && x == bl[i + expr_count(p, value, f) - 1],
            _ => false,
        },
    }
}

/// The expressions `args`, lowered in turn from position `i` of block `b`, with
/// `xs` the last instruction of each one's run.
pub open spec fn args_at(p: ProgramArena, m: ModuleArena, void: Idx, unknown: Idx, args: Seq<Idx>, xs: Seq<Idx>, b: Idx, i: int, fuel: nat, tfuel: nat) -> bool
    decreases fuel, 2nat, args.len(),
{
    xs.len() == args.len() && (args.len() == 0 || {
        let j = i + args_count(p, args.drop_last(), fuel);
        &&& args_at(p, m, void, unknown, args.drop_last(), xs.drop_last(), b, i, fuel, tfuel)
        &&& expr_at(p, m, void, unknown, args.last(), b, j, fuel, tfuel)
        &&& xs.last() == block_list(m, b)[j + expr_count(p, args.last(), fuel) - 1]
    })
}

/// A lowered expression stays lowered as the module grows by appending.
pub proof fn lemma_expr_at_grow(p: ProgramArena, a: ModuleArena, c: ModuleArena, void: Idx, unknown: Idx, e: Idx, b: Idx, i: int, fuel: nat, tfuel: nat)
    requires
        maps_grow(maps_of(a), maps_of(c)),
        blocks_extend(a, c),
        expr_at(p, a, void, unknown, e, b, i, fuel, tfuel),
    ensures
        expr_at(p, c, void, unknown, e, b, i, fuel, tfuel),
    decreases fuel, 1nat, 0nat,
{
    let bl = block_list(a, b);
    let n = expr_count(p, e, fuel);
    assert(block_list(c, b)[i + n - 1] == bl[i + n - 1]);
    assert(maps_of(a).instructions.contains_key(bl[i + n - 1]));
    lemma_shape_at_grow(p, a, c, void, unknown, p.expression_arena@[e], a.instruction_arena@[bl[i + n - 1]], b, i, (fuel - 1) as nat, tfuel);
}

/// An instruction keeps its shape as the module grows by appending.
pub proof fn lemma_shape_at_grow(
    p: ProgramArena,
    a: ModuleArena,
    c: ModuleArena,
    void: Idx,
    unknown: Idx,
    exp: Expression,
    ins: IrInstruction,
    b: Idx,
    i: int,
    f: nat,
    tfuel: nat,
)
    requires
        maps_grow(maps_of(a), maps_of(c)),
        blocks_extend(a, c),
        shape_at(p, a, void, unknown, exp, ins, b, i, f, tfuel),
    ensures
        shape_at(p, c, void, unknown, exp, ins, b, i, f, tfuel),
    decreases f + 1, 0nat, 0nat,
{
    let bl = block_list(a, b);
    match exp {
        Expression::BinOp(x, _, y) => {
            let na = expr_count(p, x, f);
            lemma_expr_at_grow(p, a, c, void, unknown, x, b, i, f, tfuel);
            lemma_expr_at_grow(p, a, c, void, unknown, y, b, i + na, f, tfuel);
            assert(block_list(c, b)[i + na - 1] == bl[i + na - 1]);
            assert(block_list(c, b)[i + na + expr_count(p, y, f) - 1] == bl[i + na + expr_count(p, y, f) - 1]);
        },
        Expression::FieldAccessor { aggregate, value } => {
            let na = expr_count(p, aggregate, f);
            lemma_expr_at_grow(p, a, c, void, unknown, aggregate, b, i, f, tfuel);
            lemma_expr_at_grow(p, a, c, void, unknown, value, b, i + na, f, tfuel);
            assert(block_list(c, b)[i + na - 1] == bl[i + na - 1]);
            assert(block_list(c, b)[i + na + expr_count(p, value, f) - 1] == bl[i + na + expr_count(p, value, f) - 1]);
        },
        Expression::FunctionCall { function, args } => {
            let nf = expr_count(p, function, f);
            lemma_expr_at_grow(p, a, c, void, unknown, function, b, i, f, tfuel);
            assert(block_list(c, b)[i + nf - 1] == bl[i + nf - 1]);
            match ins {
                IrInstruction::FunctionCall { args: xs, .. } => {
                    lemma_args_at_grow(p, a, c, void, unknown, args@, xs@, b, i + nf, f, tfuel);
                },
                _ => {},
            }
        },
        Expression::New { typ, allocator } => {
            lemma_expr_at_grow(p, a, c, void, unknown, allocator, b, i, f, tfuel);
            assert(block_list(c, b)[i + expr_count(p, allocator, f) - 1] == bl[i + expr_count(p, allocator, f) - 1]);
            match ins {
                IrInstruction::New { typ: t, .. } => {
                    lemma_lowers_type_grow(p, maps_of(a), maps_of(c), void, unknown, typ, t, tfuel);
                },
                _ => {},
            }
        },
        Expression::Dereference { pointer: x } => {
            lemma_expr_at_grow(p, a, c, void, unknown, x, b, i, f, tfuel);
            assert(block_list(c, b)[i + expr_count(p, x, f) - 1] == bl[i + expr_count(p, x, f) - 1]);
        },
        Expression::Denull { optional: x } => {
            lemma_expr_at_grow(p, a, c, void, unknown, x, b, i, f, tfuel);
            assert(block_list(c, b)[i + expr_count(p, x, f) - 1] == bl[i + expr_count(p, x, f) - 1]);
        },
        Expression::Borrow { value: x } => {
            lemma_expr_at_grow(p, a, c, void, unknown, x, b, i, f, tfuel);
            assert(block_list(c, b)[i + expr_count(p, x, f) - 1] == bl[i + expr_count(p, x, f) - 1]);
        },
        Expression::Unsafe { value: x } => {
            lemma_expr_at_grow(p, a, c, void, unknown, x, b, i, f, tfuel);
            assert(block_list(c, b)[i + expr_count(p, x, f) - 1] == bl[i + expr_count(p, x, f) - 1]);
        },
        _ => {},
    }
}

/// Lowered arguments stay lowered as the module grows by appending.
pub proof fn lemma_args_at_grow(
    p: ProgramArena,
    a: ModuleArena,
    c: ModuleArena,
    void: Idx,
    unknown: Idx,
    args: Seq<Idx>,
    xs: Seq<Idx>,
    b: Idx,
    i: int,
    fuel: nat,
    tfuel: nat,
)
    requires
        maps_grow(maps_of(a), maps_of(c)),
        blocks_extend(a, c),
        args_at(p, a, void, unknown, args, xs, b, i, fuel, tfuel),
    ensures
        args_at(p, c, void, unknown, args, xs, b, i, fuel, tfuel),
    decreases fuel, 2nat, args.len(),
{
    if args.len() > 0 {
        let j = i + args_count(p, args.drop_last(), fuel);
        lemma_args_at_grow(p, a, c, void, unknown, args.drop_last(), xs.drop_last(), b, i, fuel, tfuel);
        lemma_expr_at_grow(p, a, c, void, unknown, args.last(), b, j, fuel, tfuel);
        let k = j + expr_count(p, args.last(), fuel) - 1;
        assert(block_list(c, b)[k] == block_list(a, b)[k]);
    }
}

/// How many instructions lowering the statement `s` adds to the module.
pub open spec fn stmt_instrs(p: ProgramArena, s: Idx, fuel: nat, efuel: nat) -> nat
    decreases fuel, 1nat, 0nat,
{
    if fuel == 0 || !p.statement_arena@.contains_key(s) {
        0
    } else {
        match p.statement_arena@[s] {
            Statement::Return { value } => expr_count(p, value, efuel) + 1,
            Statement::Call { function, args } => call_count(p, function, args@, efuel) + 1,
            Statement::If { condition, body, else_if } => expr_count(p, condition, efuel) + 1
                + stmts_instrs(p, body@, (fuel - 1) as nat, efuel) + match else_if {
                Some(x) => stmt_instrs(p, x, (fuel - 1) as nat, efuel),
                None => 0,
            },
            _ => 0,
        }
    }
}

/// How many instructions lowering the statements `stmts` adds to the module.
pub open spec fn stmts_instrs(p: ProgramArena, stmts: Seq<Idx>, fuel: nat, efuel: nat) -> nat
    decreases fuel, 2nat, stmts.len(),
{
    if stmts.len() == 0 {
        0
    } else {
        stmts_instrs(p, stmts.drop_last(), fuel, efuel) + stmt_instrs(p, stmts.last(), fuel, efuel)
    }
}

/// How many blocks lowering the statement `s` adds: two for each conditional.
pub open spec fn stmt_blocks(p: ProgramArena, s: Idx, fuel: nat) -> nat
    decreases fuel, 1nat, 0nat,
{
    if fuel == 0 || !p.statement_arena@.contains_key(s) {
        0
    } else {
        match p.statement_arena@[s] {
            Statement::If { body, else_if, .. } => 2 + stmts_blocks(p, body@, (fuel - 1) as nat) + match else_if {
                Some(x) => stmt_blocks(p, x, (fuel - 1) as nat),
                None => 0,
            },
            _ => 0,
        }
    }
}

/// How many blocks lowering the statements `stmts` adds.
pub open spec fn stmts_blocks(p: ProgramArena, stmts: Seq<Idx>, fuel: nat) -> nat
    decreases fuel, 2nat, stmts.len(),
{
    if stmts.len() == 0 {
        0
    } else {
        stmts_blocks(p, stmts.drop_last(), fuel) + stmt_blocks(p, stmts.last(), fuel)
    }
}

/// The instructions of block `b`.
pub open spec fn block_list(m: ModuleArena, b: Idx) -> Seq<Idx> {
    m.block_arena@[b].instructions@
}

/// How many instructions a call appends before the call instruction itself.
pub open spec fn call_count(p: ProgramArena, function: Idx, args: Seq<Idx>, efuel: nat) -> nat {
    expr_count(p, function, efuel) + args_count(p, args, efuel)
}

/// The statement `s`, lowered from position `i` of block `b` of the module `m`:
/// its operands' runs come first, in order, and the instruction right after them
/// is the statement's own, taking the last instruction of each run: a return of
/// the value, a call, or a branch on the condition to two distinct blocks other
/// than `b`, the true one holding the body from its start and the false one the
/// `else` statement from its start.
pub open spec fn stmt_at(
    p: ProgramArena,
    m: ModuleArena,
    void: Idx,
    unknown: Idx,
    s: Idx,
    b: Idx,
    i: int,
    fuel: nat,
    efuel: nat,
    tfuel: nat,
) -> bool
    decreases fuel, 1nat, 0nat,
{
    let bl = block_list(m, b);
    let ins = m.instruction_arena@;
    fuel > 0 && p.statement_arena@.contains_key(s) && match p.statement_arena@[s] {
        Statement::Return { value } => {
            let k = i + expr_count(p, value, efuel);
            &&& m.block_arena@.contains_key(b)
            &&& 0 <= i <= k < bl.len()
            &&& expr_at(p, m, void, unknown, value, b, i, efuel, tfuel)
            &&& ins.contains_key(bl[k])
            &&& ins[bl[k]] == IrInstruction::Return { value: bl[k - 1] }
        },
        Statement::Call { function, args } => {
            let nf = expr_count(p, function, efuel);
            let k = i + call_count(p, function, args@, efuel);
            &&& m.block_arena@.contains_key(b)
            &&& 0 <= i <= k < bl.len()
            &&& expr_at(p, m, void, unknown, function, b, i, efuel, tfuel)
            &&& ins.contains_key(bl[k])
            &&& match ins[bl[k]] {
                IrInstruction::FunctionCall { function: x, args: xs } => x == bl[i + nf - 1]
                    && args_at(p, m, void, unknown, args@, xs@, b, i + nf, efuel, tfuel),
                _ => false,
            }
        },
        Statement::If { condition, body, else_if } => {
            let k = i + expr_count(p, condition, efuel);
            &&& m.block_arena@.contains_key(b)
            &&& 0 <= i <= k < bl.len()
            &&& expr_at(p, m, void, unknown, condition, b, i, efuel, tfuel)
            &&& ins.contains_key(bl[k])
            &&& match ins[bl[k]] {
                IrInstruction::Branch { condition: c, true_branch, false_branch } => {
                    &&& c == bl[k - 1]
                    &&& true_branch != false_branch
                    &&& true_branch != b
                    &&& false_branch != b
                    &&& stmts_at(p, m, void, unknown, body@, true_branch, 0, (fuel - 1) as nat, efuel, tfuel)
                    &&& match else_if {
                        Some(x) => stmt_at(p, m, void, unknown, x, false_branch, 0, (fuel - 1) as nat, efuel, tfuel),
                        None => true,
                    }
                },
                _ => false,
            }
        },
        _ => true,
    }
}

/// Where lowering the statement `s` from position `i` of block `b` leaves the
/// cursor: after its own instruction, or, for a conditional, where its `else`
/// statement ends, or at the start of the false block.
pub open spec fn stmt_end(p: ProgramArena, m: ModuleArena, s: Idx, b: Idx, i: int, fuel: nat, efuel: nat) -> (Idx, int)
    decreases fuel, 1nat, 0nat,
{
    if fuel == 0 || !p.statement_arena@.contains_key(s) {
        (b, i)
    } else {
        match p.statement_arena@[s] {
            Statement::Return { value } => (b, i + expr_count(p, value, efuel) + 1),
            Statement::Call { function, args } => (b, i + call_count(p, function, args@, efuel) + 1),
            Statement::If { condition, else_if, .. } => {
                let k = i + expr_count(p, condition, efuel);
                match m.instruction_arena@[block_list(m, b)[k]] {
                    IrInstruction::Branch { false_branch, .. } => match else_if {
                        Some(x) => stmt_end(p, m, x, false_branch, 0, (fuel - 1) as nat, efuel),
                        None => (false_branch, 0),
                    },
                    _ => (b, i),
                }
            },
            _ => (b, i),
        }
    }
}

/// The statements `stmts`, lowered one after another from position `i` of
/// block `b`, each from where the one before it ended.
pub open spec fn stmts_at(
    p: ProgramArena,
    m: ModuleArena,
    void: Idx,
    unknown: Idx,
    stmts: Seq<Idx>,
    b: Idx,
    i: int,
    fuel: nat,
    efuel: nat,
    tfuel: nat,
) -> bool
    decreases fuel, 2nat, stmts.len(),
{
    if stmts.len() == 0 {
        true
    } else {
        let e = stmts_end(p, m, stmts.drop_last(), b, i, fuel, efuel);
        stmts_at(p, m, void, unknown, stmts.drop_last(), b, i, fuel, efuel, tfuel)
            && stmt_at(p, m, void, unknown, stmts.last(), e.0, e.1, fuel, efuel, tfuel)
    }
}

/// Where lowering the statements `stmts` in turn leaves the cursor.
pub open spec fn stmts_end(p: ProgramArena, m: ModuleArena, stmts: Seq<Idx>, b: Idx, i: int, fuel: nat, efuel: nat) -> (Idx, int)
    decreases fuel, 2nat, stmts.len(),
{
    if stmts.len() == 0 {
        (b, i)
    } else {
        let e = stmts_end(p, m, stmts.drop_last(), b, i, fuel, efuel);
        stmt_end(p, m, stmts.last(), e.0, e.1, fuel, efuel)
    }
}

/// Every block of `a` is in `b`, with its instructions kept in place.
pub open spec fn blocks_extend(a: ModuleArena, b: ModuleArena) -> bool {
    forall|x: Idx| #[trigger] a.block_arena@.contains_key(x) ==> b.block_arena@.contains_key(x)
        && list_extends(a.block_arena@[x].instructions@, b.block_arena@[x].instructions@)
}

/// A lowered statement stays lowered, and ends at the same place, as the
/// module grows by appending.
pub proof fn lemma_stmt_at_grow(
    p: ProgramArena,
    a: ModuleArena,
    c: ModuleArena,
    void: Idx,
    unknown: Idx,
    s: Idx,
    b: Idx,
    i: int,
    fuel: nat,
    efuel: nat,
    tfuel: nat,
)
    requires
        maps_grow(maps_of(a), maps_of(c)),
        blocks_extend(a, c),
        stmt_at(p, a, void, unknown, s, b, i, fuel, efuel, tfuel),
    ensures
        stmt_at(p, c, void, unknown, s, b, i, fuel, efuel, tfuel),
        stmt_end(p, c, s, b, i, fuel, efuel) == stmt_end(p, a, s, b, i, fuel, efuel),
    decreases fuel, 1nat, 0nat,
{
    let bl = block_list(a, b);
    match p.statement_arena@[s] {
        Statement::Return { value } => {
            let k = i + expr_count(p, value, efuel);
            assert(block_list(c, b)[k] == bl[k]);
            assert(block_list(c, b)[k - 1] == bl[k - 1]);
            assert(maps_of(a).instructions.contains_key(bl[k]));
            lemma_expr_at_grow(p, a, c, void, unknown, value, b, i, efuel, tfuel);
        },
        Statement::Call { function, args } => {
            let nf = expr_count(p, function, efuel);
            let k = i + call_count(p, function, args@, efuel);
            assert(block_list(c, b)[k] == bl[k]);
            assert(block_list(c, b)[i + nf - 1] == bl[i + nf - 1]);
            assert(maps_of(a).instructions.contains_key(bl[k]));
            lemma_expr_at_grow(p, a, c, void, unknown, function, b, i, efuel, tfuel);
            match a.instruction_arena@[bl[k]] {
                IrInstruction::FunctionCall { args: xs, .. } => {
                    lemma_args_at_grow(p, a, c, void, unknown, args@, xs@, b, i + nf, efuel, tfuel);
                },
                _ => {},
            }
        },
        Statement::If { condition, body, else_if } => {
            let k = i + expr_count(p, condition, efuel);
            assert(block_list(c, b)[k] == bl[k]);
            assert(block_list(c, b)[k - 1] == bl[k - 1]);
            assert(maps_of(a).instructions.contains_key(bl[k]));
            lemma_expr_at_grow(p, a, c, void, unknown, condition, b, i, efuel, tfuel);
            match a.instruction_arena@[bl[k]] {
                IrInstruction::Branch { condition: cv, true_branch, false_branch } => {
                    lemma_stmts_at_grow(p, a, c, void, unknown, body@, true_branch, 0, (fuel - 1) as nat, efuel, tfuel);
                    if let Some(x) = else_if {
                        lemma_stmt_at_grow(p, a, c, void, unknown, x, false_branch, 0, (fuel - 1) as nat, efuel, tfuel);
                    }
                },
                _ => {},
            }
        },
        _ => {},
    }
}

/// Lowered statements stay lowered, and end at the same place, as the module
/// grows by appending.
pub proof fn lemma_stmts_at_grow(
    p: ProgramArena,
    a: ModuleArena,
    c: ModuleArena,
    void: Idx,
    unknown: Idx,
    stmts: Seq<Idx>,
    b: Idx,
    i: int,
    fuel: nat,
    efuel: nat,
    tfuel: nat,
)
    requires
        maps_grow(maps_of(a), maps_of(c)),
        blocks_extend(a, c),
        stmts_at(p, a, void, unknown, stmts, b, i, fuel, efuel, tfuel),
    ensures
        stmts_at(p, c, void, unknown, stmts, b, i, fuel, efuel, tfuel),
        stmts_end(p, c, stmts, b, i, fuel, efuel) == stmts_end(p, a, stmts, b, i, fuel, efuel),
    decreases fuel, 2nat, stmts.len(),
{
    if stmts.len() > 0 {
        lemma_stmts_at_grow(p, a, c, void, unknown, stmts.drop_last(), b, i, fuel, efuel, tfuel);
        let e = stmts_end(p, a, stmts.drop_last(), b, i, fuel, efuel);
        lemma_stmt_at_grow(p, a, c, void, unknown, stmts.last(), e.0, e.1, fuel, efuel, tfuel);
    }
}

/// No instruction index is listed twice: not at two positions of one block, nor
/// in two blocks.
pub open spec fn listed_once(m: ModuleArena) -> bool {
    forall|b1: Idx, j1: int, b2: Idx, j2: int|
        m.block_arena@.contains_key(b1) && m.block_arena@.contains_key(b2) && 0 <= j1 < block_list(m, b1).len()
            && 0 <= j2 < block_list(m, b2).len() && #[trigger] block_list(m, b1)[j1] == #[trigger] block_list(m, b2)[j2]
            ==> b1 == b2 && j1 == j2
}

/// Appending a fresh instruction to a live block keeps every index listed once.
pub proof fn lemma_listed_once_after_push(a: ModuleArena, c: ModuleArena, block: Idx, index: Idx)
    requires
        listed_once(a),
        a.block_arena@.contains_key(block),
        forall|x: Idx| #[trigger] a.block_arena@.contains_key(x) ==> block_refs_resolve(a, a.block_arena@[x]),
        !a.instruction_arena@.contains_key(index),
        c.block_arena@ == a.block_arena@.insert(block, c.block_arena@[block]),
        c.block_arena@[block].instructions@ == a.block_arena@[block].instructions@.push(index),
    ensures
        listed_once(c),
{
    assert forall|b1: Idx, j1: int, b2: Idx, j2: int|
        c.block_arena@.contains_key(b1) && c.block_arena@.contains_key(b2) && 0 <= j1 < block_list(c, b1).len()
            && 0 <= j2 < block_list(c, b2).len() && #[trigger] block_list(c, b1)[j1] == #[trigger] block_list(c, b2)[j2]
        implies b1 == b2 && j1 == j2 by {
        let n = block_list(a, block).len() as int;
        let new1 = b1 == block && j1 == n;
        let new2 = b2 == block && j2 == n;
        if !new1 {
            assert(block_list(c, b1)[j1] == block_list(a, b1)[j1]);
            assert(block_refs_resolve(a, a.block_arena@[b1]));
            assert(a.instruction_arena@.contains_key(block_list(a, b1)[j1]));
        }
        if !new2 {
            assert(block_list(c, b2)[j2] == block_list(a, b2)[j2]);
            assert(block_refs_resolve(a, a.block_arena@[b2]));
            assert(a.instruction_arena@.contains_key(block_list(a, b2)[j2]));
        }
    }
}

/// Placement and single listing depend only on the block and instruction arenas.
pub proof fn lemma_same_listing(a: ModuleArena, b: ModuleArena)
    requires
        a.block_arena == b.block_arena,
        a.instruction_arena == b.instruction_arena,
        instructions_placed(a),
        listed_once(a),
    ensures
        instructions_placed(b),
        listed_once(b),
{
    assert forall|i: Idx| #[trigger] b.instruction_arena@.contains_key(i) implies exists|x: Idx|
        b.block_arena@.contains_key(x) && #[trigger] b.block_arena@[x].instructions@.contains(i) by {
        let x = choose|x: Idx| a.block_arena@.contains_key(x) && #[trigger] a.block_arena@[x].instructions@.contains(i);
        assert(b.block_arena@[x] == a.block_arena@[x]);
    }
    assert forall|b1: Idx, j1: int, b2: Idx, j2: int|
        b.block_arena@.contains_key(b1) && b.block_arena@.contains_key(b2) && 0 <= j1 < block_list(b, b1).len()
            && 0 <= j2 < block_list(b, b2).len() && #[trigger] block_list(b, b1)[j1] == #[trigger] block_list(b, b2)[j2]
        implies b1 == b2 && j1 == j2 by {
        assert(block_list(b, b1) == block_list(a, b1));
        assert(block_list(b, b2) == block_list(a, b2));
    }
}

/// The state of one lowering: the program read, the module's arenas being
/// filled, the canonical `Void` and `Unknown` types, and the blocks of the
/// function being lowered, in the order they were made.
pub struct IrBuilderContext<'ctx> {
    pub program: &'ctx Program,
    pub module_arena: ModuleArena,
    pub void_index: IrTypeIndex,
    pub unknown_index: IrTypeIndex,
    pub blocks: Vec<IrBlockIndex>,
}

impl<'ctx> IrBuilderContext<'ctx> {
    /// The module is consistent, holds the two canonical types, and every block
    /// of the current function is live.
    pub open spec fn wf(&self) -> bool {
        &&& self.program.program_arena.wf()
        &&& self.module_arena.wf()
        &&& self.module_arena.type_arena@.contains_key(self.void_index)
        &&& self.module_arena.type_arena@[self.void_index] == IrType::Void
        &&& self.module_arena.type_arena@.contains_key(self.unknown_index)
        &&& self.module_arena.type_arena@[self.unknown_index] == IrType::Unknown
        &&& forall|k: int| 0 <= k < self.blocks@.len() ==> self.module_arena.block_arena@.contains_key(#[trigger] self.blocks@[k])
        &&& instructions_placed(self.module_arena)
        &&& listed_once(self.module_arena)
    }

    /// The model of the module's arenas.
    pub open spec fn maps(&self) -> IrMaps {
        maps_of(self.module_arena)
    }

    /// A fresh module holding only the canonical `Void` and `Unknown` types.
    pub fn new(program: &'ctx Program) -> (r: IrBuilderContext<'ctx>)
        requires
            program.program_arena.wf(),
        ensures
            r.wf(),
            r.program == program,
            r.void_index != r.unknown_index,
            r.module_arena.type_arena@.dom() == set![r.void_index, r.unknown_index],
            r.module_arena.node_arena@ == Map::<Idx, IrNode>::empty(),
            r.module_arena.node_arena.removal_count() == 0,
            r.module_arena.node_arena.order().len() == 0,
            r.module_arena.block_arena@ == Map::<Idx, IrBlock>::empty(),
            r.module_arena.instruction_arena@ == Map::<Idx, IrInstruction>::empty(),
            r.blocks@.len() == 0,
    {
        proof {
            reveal(ModuleArena::wf);
        }
        let mut module_arena = ModuleArena::new();
        let void_index = module_arena.type_arena.insert(IrType::Void);
        let unknown_index = module_arena.type_arena.insert(IrType::Unknown);
        let r = IrBuilderContext { program, module_arena, void_index, unknown_index, blocks: Vec::new() };
        assert(r.module_arena.type_arena@.dom() =~= set![void_index, unknown_index]);
        r
    }
}

impl<'ctx> IrBuilderContext<'ctx> {
    /// Stores a type whose indices resolve in the module.
    fn add_type(&mut self, t: IrType) -> (r: IrTypeIndex)
        requires
            old(self).wf(),
            type_refs_resolve(old(self).module_arena, t),
        ensures
            final(self).wf(),
            final(self).program == old(self).program,
            final(self).void_index == old(self).void_index,
            final(self).unknown_index == old(self).unknown_index,
            final(self).blocks == old(self).blocks,
            !old(self).module_arena.type_arena@.contains_key(r),
            final(self).module_arena.type_arena@ == old(self).module_arena.type_arena@.insert(r, t),
            final(self).module_arena.node_arena == old(self).module_arena.node_arena,
            final(self).module_arena.block_arena == old(self).module_arena.block_arena,
            final(self).module_arena.instruction_arena == old(self).module_arena.instruction_arena,
    {
        let ghost a = self.module_arena;
        proof {
            lemma_wf_unfold(a);
        }
        let r = self.module_arena.type_arena.insert(t);
        proof {
            let b = self.module_arena;
            assert(arenas_grow(a, b));
            assert(type_refs_resolve(b, t));
            lemma_wf_grow(a, b);
            lemma_same_listing(a, b);
        }
        r
    }

    /// Makes an empty block and counts it among the current function's blocks.
    pub fn new_block(&mut self) -> (r: IrBlockIndex)
        requires
            old(self).wf(),
        ensures
            final(self).wf(),
            final(self).program == old(self).program,
            final(self).void_index == old(self).void_index,
            final(self).unknown_index == old(self).unknown_index,
            final(self).blocks@ == old(self).blocks@.push(r),
            !old(self).module_arena.block_arena@.contains_key(r),
            final(self).module_arena.block_arena@.contains_key(r),
            final(self).module_arena.block_arena@[r].instructions@.len() == 0,
            final(self).module_arena.block_arena@.len() == old(self).module_arena.block_arena@.len() + 1,
            final(self).module_arena.block_arena@ == old(self).module_arena.block_arena@.insert(
                r,
                final(self).module_arena.block_arena@[r],
            ),
            final(self).module_arena.type_arena == old(self).module_arena.type_arena,
            final(self).module_arena.node_arena == old(self).module_arena.node_arena,
            final(self).module_arena.instruction_arena == old(self).module_arena.instruction_arena,
    {
        let ghost a = self.module_arena;
        proof {
            reveal(ModuleArena::wf);
        }
        proof {
            lemma_wf_unfold(a);
            lemma_walk_is_live(a.block_arena);
        }
        let r = self.module_arena.block_arena.insert(IrBlock::new());
        proof {
            let b = self.module_arena;
            assert(arenas_grow(a, b));
            assert(block_refs_resolve(b, b.block_arena@[r]));
            lemma_wf_grow(a, b);
            assert forall|i: Idx| #[trigger] b.instruction_arena@.contains_key(i) implies exists|x: Idx|
                b.block_arena@.contains_key(x) && #[trigger] b.block_arena@[x].instructions@.contains(i) by {
                let x = choose|x: Idx| a.block_arena@.contains_key(x) && #[trigger] a.block_arena@[x].instructions@.contains(i);
                assert(b.block_arena@[x] == a.block_arena@[x]);
            }
            assert forall|b1: Idx, j1: int, b2: Idx, j2: int|
                b.block_arena@.contains_key(b1) && b.block_arena@.contains_key(b2) && 0 <= j1 < block_list(b, b1).len()
                    && 0 <= j2 < block_list(b, b2).len() && #[trigger] block_list(b, b1)[j1] == #[trigger] block_list(b, b2)[j2]
                implies b1 == b2 && j1 == j2 by {
                assert(b1 != r && b2 != r);
                assert(block_list(b, b1) == block_list(a, b1));
                assert(block_list(b, b2) == block_list(a, b2));
            }
        }
        self.blocks.push(r);
        r
    }

    /// Stores an instruction and appends its index to `block`, so that every
    /// instruction belongs to a block. The index returned can be an operand of
    /// later instructions.
    pub fn ins(&mut self, block: IrBlockIndex, ins: IrInstruction) -> (r: IrInstructionIndex)
        requires
            old(self).wf(),
            old(self).module_arena.block_arena@.contains_key(block),
            instruction_refs_resolve(old(self).module_arena, ins),
        ensures
            final(self).wf(),
            final(self).program == old(self).program,
            final(self).void_index == old(self).void_index,
            final(self).unknown_index == old(self).unknown_index,
            final(self).blocks == old(self).blocks,
            !old(self).module_arena.instruction_arena@.contains_key(r),
            final(self).module_arena.instruction_arena@ == old(self).module_arena.instruction_arena@.insert(r, ins),
            final(self).module_arena.instruction_arena@.len() == old(self).module_arena.instruction_arena@.len() + 1,
            final(self).module_arena.block_arena@.contains_key(block),
            final(self).module_arena.block_arena@[block].instructions@
                == old(self).module_arena.block_arena@[block].instructions@.push(r),
            final(self).module_arena.block_arena@ == old(self).module_arena.block_arena@.insert(
                block,
                final(self).module_arena.block_arena@[block],
            ),
            final(self).module_arena.block_arena.order() == old(self).module_arena.block_arena.order(),
            final(self).module_arena.type_arena == old(self).module_arena.type_arena,
            final(self).module_arena.node_arena == old(self).module_arena.node_arena,
    {
        let ghost a = self.module_arena;
        proof {
            lemma_wf_unfold(a);
        }
        let index = self.module_arena.instruction_arena.insert(ins);
        let ghost mid = self.module_arena;
        proof {
            assert(arenas_grow(a, mid));
            assert(instruction_refs_resolve(mid, ins));
            lemma_wf_grow(a, mid);
            lemma_wf_unfold(mid);
        }
        let b = self.module_arena.block_arena.get_mut(block);
        b.instructions.push(index);
        proof {
            let c = self.module_arena;
            assert(arenas_grow(mid, c));
            assert(block_refs_resolve(c, c.block_arena@[block]));
            lemma_wf_grow(mid, c);
            lemma_placed_after_push(a, c, block, index);
            lemma_wf_unfold(a);
            lemma_walk_is_live(a.instruction_arena);
            lemma_listed_once_after_push(a, c, block, index);
        }
        index
    }
}

impl<'ctx> IrBuilderContext<'ctx> {
    /// Stores a declaration whose indices resolve in the module.
    fn add_node(&mut self, n: IrNode) -> (r: IrNodeIndex)
        requires
            old(self).wf(),
            node_refs_resolve(old(self).module_arena, n),
        ensures
            final(self).wf(),
            final(self).program == old(self).program,
            final(self).void_index == old(self).void_index,
            final(self).unknown_index == old(self).unknown_index,
            final(self).module_arena.node_arena@ == old(self).module_arena.node_arena@.insert(r, n),
            !old(self).module_arena.node_arena@.contains_key(r),
            final(self).module_arena.node_arena.removal_count() == old(self).module_arena.node_arena.removal_count(),
            old(self).module_arena.node_arena.removal_count() == 0 ==> final(self).module_arena.node_arena.order()
                == old(self).module_arena.node_arena.order().push(r),
            final(self).module_arena.type_arena == old(self).module_arena.type_arena,
            final(self).module_arena.block_arena == old(self).module_arena.block_arena,
            final(self).module_arena.instruction_arena == old(self).module_arena.instruction_arena,
    {
        let ghost a = self.module_arena;
        proof {
            lemma_wf_unfold(a);
        }
        let r = self.module_arena.node_arena.insert(n);
        proof {
            let b = self.module_arena;
            assert(arenas_grow(a, b));
            assert(node_refs_resolve(b, n));
            lemma_wf_grow(a, b);
            lemma_same_listing(a, b);
        }
        r
    }
}

/// Lowers a program's syntax tree into a module's IR.
pub struct IrBuilder {}

impl IrBuilder {
    /// A builder; it keeps no state between programs.
    pub fn new() -> (r: IrBuilder) {
        IrBuilder {}
    }

    /// Lowers the expression under `e` into instructions appended to `block`,
    /// operands first, and returns the index of the instruction that computes
    /// it. Fails where an index reached resolves to nothing, or a path of
    /// expressions runs longer than `fuel`, or a type runs longer than `tfuel`.
    #[verifier::loop_isolation(false)]
    fn build_expression(
        &self,
        ctx: &mut IrBuilderContext,
        e: Idx,
        block: IrBlockIndex,
        fuel: usize,
        tfuel: usize,
    ) -> (r: Result<IrInstructionIndex, LoweringError>)
        requires
            old(ctx).wf(),
            old(ctx).module_arena.block_arena@.contains_key(block),
        ensures
            final(ctx).wf(),
            grows_in_block(*old(ctx), *final(ctx), block),
            r is Ok <==> expr_ok(old(ctx).program.program_arena, e, fuel as nat, tfuel as nat),
            !old(ctx).program.program_arena.expression_arena@.contains_key(e) ==> r == Err::<IrInstructionIndex, LoweringError>(
                LoweringError::DanglingExpression(e),
            ),
            r is Ok ==> {
                let ins = final(ctx).module_arena.block_arena@[block].instructions@;
                &&& lowers_expr(
                    old(ctx).program.program_arena,
                    final(ctx).maps(),
                    old(ctx).void_index,
                    old(ctx).unknown_index,
                    e,
                    r->Ok_0,
                    fuel as nat,
                    tfuel as nat,
                )
                &&& ins.len() == old(ctx).module_arena.block_arena@[block].instructions@.len()
                    + expr_count(old(ctx).program.program_arena, e, fuel as nat)
                &&& final(ctx).module_arena.instruction_arena@.len() == old(ctx).module_arena.instruction_arena@.len()
                    + expr_count(old(ctx).program.program_arena, e, fuel as nat)
                &&& ins.len() > old(ctx).module_arena.block_arena@[block].instructions@.len()
                &&& ins.last() == r->Ok_0
                &&& expr_at(
                    old(ctx).program.program_arena,
                    final(ctx).module_arena,
                    old(ctx).void_index,
                    old(ctx).unknown_index,
                    e,
                    block,
                    old(ctx).module_arena.block_arena@[block].instructions@.len() as int,
                    fuel as nat,
                    tfuel as nat,
                )
            },
        decreases fuel,
    {
        let ghost start = *ctx;
        let program: &Program = ctx.program;
        let exp = match program.expression(e) {
            Ok(x) => x,
            Err(err) => {
                return Err(err);
            },
        };
        if fuel == 0 {
            return Err(LoweringError::Cycle);
        }
        let f = fuel - 1;
        let ghost pa = program.program_arena;
        let ghost void = start.void_index;
        let ghost unknown = start.unknown_index;
        let ghost l0 = block_list(start.module_arena, block).len() as int;
        let ins = match exp {
            Expression::Ref(s) => IrInstruction::Ref(s.clone()),
            Expression::NatLiteral(n) => IrInstruction::NatLiteral(*n),
            Expression::BoolLiteral(b) => IrInstruction::BoolLiteral(*b),
            Expression::BinOp(lhs, op, rhs) => {
                let x = match self.build_expression(ctx, *lhs, block, f, tfuel) {
                    Ok(x) => x,
                    Err(err) => return Err(err),
                };
                let ghost mid = *ctx;
                let y = match self.build_expression(ctx, *rhs, block, f, tfuel) {
                    Ok(y) => y,
                    Err(err) => {
                        proof {
                            lemma_grows_in_block_trans(start, mid, *ctx, block);
                        }
                        return Err(err);
                    },
                };
                let ins = IrInstruction::BinOp(x, *op, y);
                proof {
                    lemma_lowers_expr_grow(pa, mid.maps(), ctx.maps(), void, unknown, *lhs, x, f as nat, tfuel as nat);
                    lemma_grows_in_block_extend(mid, *ctx, block);
                    lemma_expr_at_grow(pa, mid.module_arena, ctx.module_arena, void, unknown, *lhs, block, l0, f as nat, tfuel as nat);
                    let na = expr_count(pa, *lhs, f as nat);
                    assert(block_list(mid.module_arena, block)[l0 + na - 1] == x);
                    assert(block_list(ctx.module_arena, block)[l0 + na - 1] == x);
                    lemma_grows_in_block_trans(start, mid, *ctx, block);
                    assert(computes(pa, ctx.maps(), void, unknown, *exp, ins, f as nat, tfuel as nat));
                    assert(shape_at(pa, ctx.module_arena, void, unknown, *exp, ins, block, l0, f as nat, tfuel as nat));
                    assert(instruction_refs_resolve(ctx.module_arena, ins));
                }
                ins
            },
            Expression::FieldAccessor { aggregate, value } => {
                let x = match self.build_expression(ctx, *aggregate, block, f, tfuel) {
                    Ok(x) => x,
                    Err(err) => return Err(err),
                };
                let ghost mid = *ctx;
                let y = match self.build_expression(ctx, *value, block, f, tfuel) {
                    Ok(y) => y,
                    Err(err) => {
                        proof {
                            lemma_grows_in_block_trans(start, mid, *ctx, block);
                        }
                        return Err(err);
                    },
                };
                let ins = IrInstruction::FieldAccessor { aggregate: x, value: y };
                proof {
                    lemma_lowers_expr_grow(pa, mid.maps(), ctx.maps(), void, unknown, *aggregate, x, f as nat, tfuel as nat);
                    lemma_grows_in_block_extend(mid, *ctx, block);
                    lemma_expr_at_grow(pa, mid.module_arena, ctx.module_arena, void, unknown, *aggregate, block, l0, f as nat, tfuel as nat);
                    let na = expr_count(pa, *aggregate, f as nat);
                    assert(block_list(mid.module_arena, block)[l0 + na - 1] == x);
                    assert(block_list(ctx.module_arena, block)[l0 + na - 1] == x);
                    lemma_grows_in_block_trans(start, mid, *ctx, block);
                    assert(computes(pa, ctx.maps(), void, unknown, *exp, ins, f as nat, tfuel as nat));
                    assert(shape_at(pa, ctx.module_arena, void, unknown, *exp, ins, block, l0, f as nat, tfuel as nat));
                    assert(instruction_refs_resolve(ctx.module_arena, ins));
                }
                ins
            },
            Expression::FunctionCall { function, args } => {
                let fun = match self.build_expression(ctx, *function, block, f, tfuel) {
                    Ok(x) => x,
                    Err(err) => return Err(err),
                };
                proof {
                    assert(args@.take(0) =~= Seq::<Idx>::empty());
                }
                proof {
                    assert(args@.take(0) =~= Seq::<Idx>::empty());
                }
                let mut xs: Vec<IrInstructionIndex> = Vec::new();
                let mut k: usize = 0;
                while k < args.len()
                    invariant
                        ctx.wf(),
                        ctx.program == program,
                        ctx.void_index == void,
                        ctx.unknown_index == unknown,
                        pa == program.program_arena,
                        f == fuel - 1,
                        pa.expression_arena@.contains_key(e),
                        pa.expression_arena@[e] == (Expression::FunctionCall { function: *function, args: *args }),
                        ctx.module_arena.block_arena@.contains_key(block),
                        grows_in_block(start, *ctx, block),
                        k <= args@.len(),
                        xs@.len() == k,
                        ctx.module_arena.block_arena@[block].instructions@.len() == start.module_arena.block_arena@[block].instructions@.len()
                            + expr_count(pa, *function, f as nat) + args_count(pa, args@.take(k as int), f as nat),
                        ctx.module_arena.instruction_arena@.len() == start.module_arena.instruction_arena@.len()
                            + expr_count(pa, *function, f as nat) + args_count(pa, args@.take(k as int), f as nat),
                        lowers_expr(pa, ctx.maps(), void, unknown, *function, fun, f as nat, tfuel as nat),
                        expr_ok(pa, *function, f as nat, tfuel as nat),
                        forall|j: int| 0 <= j < k ==> expr_ok(pa, #[trigger] args@[j], f as nat, tfuel as nat),
                        forall|j: int| 0 <= j < k ==>
                            lowers_expr(pa, ctx.maps(), void, unknown, #[trigger] args@[j], xs@[j], f as nat, tfuel as nat),
                        expr_at(pa, ctx.module_arena, void, unknown, *function, block, l0, f as nat, tfuel as nat),
                        fun == block_list(ctx.module_arena, block)[l0 + expr_count(pa, *function, f as nat) - 1],
                        args_at(pa, ctx.module_arena, void, unknown, args@.take(k as int), xs@, block,
                            l0 + expr_count(pa, *function, f as nat), f as nat, tfuel as nat),
                    decreases args@.len() - k,
                {
                    let ghost before = *ctx;
                    let x = match self.build_expression(ctx, args[k], block, f, tfuel) {
                        Ok(x) => x,
                        Err(err) => {
                            proof {
                                lemma_grows_in_block_trans(start, before, *ctx, block);
                                assert(!expr_ok(pa, args@[k as int], f as nat, tfuel as nat));
                                assert(!expr_ok(pa, e, fuel as nat, tfuel as nat));
                            }
                            return Err(err);
                        },
                    };
                    proof {
                        assert(args@.take(k + 1).drop_last() =~= args@.take(k as int));
                        lemma_lowers_expr_grow(pa, before.maps(), ctx.maps(), void, unknown, *function, fun, f as nat, tfuel as nat);
                        assert forall|j: int| 0 <= j < k implies
                            lowers_expr(pa, ctx.maps(), void, unknown, #[trigger] args@[j], xs@[j], f as nat, tfuel as nat) by {
                            lemma_lowers_expr_grow(pa, before.maps(), ctx.maps(), void, unknown, args@[j], xs@[j], f as nat, tfuel as nat);
                        }
                        lemma_grows_in_block_trans(start, before, *ctx, block);
                        lemma_grows_in_block_extend(before, *ctx, block);
                        let nf = expr_count(pa, *function, f as nat);
                        lemma_expr_at_grow(pa, before.module_arena, ctx.module_arena, void, unknown, *function, block, l0, f as nat, tfuel as nat);
                        assert(block_list(ctx.module_arena, block)[l0 + nf - 1] == block_list(before.module_arena, block)[l0 + nf - 1]);
                        lemma_args_at_grow(pa, before.module_arena, ctx.module_arena, void, unknown, args@.take(k as int), xs@, block, l0 + nf, f as nat, tfuel as nat);
                    }
                    let ghost xs0 = xs@;
                    xs.push(x);
                    proof {
                        assert(xs@.drop_last() =~= xs0);
                        assert(args@.take(k + 1).last() == args@[k as int]);
                    }
                    k = k + 1;
                }
                let ins = IrInstruction::FunctionCall { function: fun, args: xs };
                proof {
                    assert(args@.take(args@.len() as int) =~= args@);
                    assert(shape_at(pa, ctx.module_arena, void, unknown, *exp, ins, block, l0, f as nat, tfuel as nat));
                    assert forall|j: int| 0 <= j < xs@.len() implies ctx.module_arena.instruction_arena@.contains_key(#[trigger] xs@[j]) by {
                        assert(lowers_expr(pa, ctx.maps(), void, unknown, args@[j], xs@[j], f as nat, tfuel as nat));
                    }
                    assert(computes(pa, ctx.maps(), void, unknown, *exp, ins, f as nat, tfuel as nat));
                    assert(instruction_refs_resolve(ctx.module_arena, ins));
                }
                ins
            },
            Expression::New { typ, allocator } => {
                let a = match self.build_expression(ctx, *allocator, block, f, tfuel) {
                    Ok(x) => x,
                    Err(err) => return Err(err),
                };
                let ghost mid = *ctx;
                let t = match self.build_type(ctx, *typ, tfuel) {
                    Ok(t) => t,
                    Err(err) => {
                        proof {
                            assert(grows_in_block(mid, *ctx, block));
                            lemma_grows_in_block_trans(start, mid, *ctx, block);
                        }
                        return Err(err);
                    },
                };
                let ins = IrInstruction::New { typ: t, allocator: a };
                proof {
                    assert(grows_in_block(mid, *ctx, block));
                    lemma_lowers_expr_grow(pa, mid.maps(), ctx.maps(), void, unknown, *allocator, a, f as nat, tfuel as nat);
                    lemma_grows_in_block_extend(mid, *ctx, block);
                    lemma_expr_at_grow(pa, mid.module_arena, ctx.module_arena, void, unknown, *allocator, block, l0, f as nat, tfuel as nat);
                    lemma_grows_in_block_trans(start, mid, *ctx, block);
                    assert(computes(pa, ctx.maps(), void, unknown, *exp, ins, f as nat, tfuel as nat));
                    assert(shape_at(pa, ctx.module_arena, void, unknown, *exp, ins, block, l0, f as nat, tfuel as nat));
                    assert(instruction_refs_resolve(ctx.module_arena, ins));
                }
                ins
            },
            Expression::Dereference { pointer } => {
                let x = match self.build_expression(ctx, *pointer, block, f, tfuel) {
                    Ok(x) => x,
                    Err(err) => return Err(err),
                };
                let ins = IrInstruction::Dereference { pointer: x };
                proof {
                    assert(computes(pa, ctx.maps(), void, unknown, *exp, ins, f as nat, tfuel as nat));
                    assert(shape_at(pa, ctx.module_arena, void, unknown, *exp, ins, block, l0, f as nat, tfuel as nat));
                    assert(instruction_refs_resolve(ctx.module_arena, ins));
                }
                ins
            },
            Expression::Denull { optional } => {
                let x = match self.build_expression(ctx, *optional, block, f, tfuel) {
                    Ok(x) => x,
                    Err(err) => return Err(err),
                };
                let ins = IrInstruction::Denull { optional: x };
                proof {
                    assert(computes(pa, ctx.maps(), void, unknown, *exp, ins, f as nat, tfuel as nat));
                    assert(shape_at(pa, ctx.module_arena, void, unknown, *exp, ins, block, l0, f as nat, tfuel as nat));
                    assert(instruction_refs_resolve(ctx.module_arena, ins));
                }
                ins
            },
            Expression::Borrow { value } => {
                let x = match self.build_expression(ctx, *value, block, f, tfuel) {
                    Ok(x) => x,
                    Err(err) => return Err(err),
                };
                let ins = IrInstruction::Borrow { value: x };
                proof {
                    assert(computes(pa, ctx.maps(), void, unknown, *exp, ins, f as nat, tfuel as nat));
                    assert(shape_at(pa, ctx.module_arena, void, unknown, *exp, ins, block, l0, f as nat, tfuel as nat));
                    assert(instruction_refs_resolve(ctx.module_arena, ins));
                }
                ins
            },
            Expression::Unsafe { value } => {
                let x = match self.build_expression(ctx, *value, block, f, tfuel) {
                    Ok(x) => x,
                    Err(err) => return Err(err),
                };
                let ins = IrInstruction::Unsafe { value: x };
                proof {
                    assert(computes(pa, ctx.maps(), void, unknown, *exp, ins, f as nat, tfuel as nat));
                    assert(shape_at(pa, ctx.module_arena, void, unknown, *exp, ins, block, l0, f as nat, tfuel as nat));
                    assert(instruction_refs_resolve(ctx.module_arena, ins));
                }
                ins
            },
        };
        let ghost mid = *ctx;
        proof {
            assert(computes(pa, mid.maps(), void, unknown, *exp, ins, f as nat, tfuel as nat));
            assert(shape_at(pa, mid.module_arena, void, unknown, *exp, ins, block, l0, f as nat, tfuel as nat));
            assert(expr_ok(pa, e, fuel as nat, tfuel as nat));
            assert(instruction_refs_resolve(mid.module_arena, ins));
        }
        let r = ctx.ins(block, ins);
        proof {
            assert(ctx.module_arena.block_arena@.dom() =~= mid.module_arena.block_arena@.dom());
            assert(grows_in_block(mid, *ctx, block));
            lemma_grows_in_block_trans(start, mid, *ctx, block);
            lemma_computes_grow(pa, mid.maps(), ctx.maps(), void, unknown, *exp, ins, f as nat, tfuel as nat);
            lemma_grows_in_block_extend(mid, *ctx, block);
            lemma_shape_at_grow(pa, mid.module_arena, ctx.module_arena, void, unknown, *exp, ins, block, l0, f as nat, tfuel as nat);
            assert(block_list(ctx.module_arena, block)[l0 + expr_count(pa, e, fuel as nat) - 1] == r);
        }
        Ok(r)
    }

    /// Lowers the statement under `s` at the block `current_block`, moving that
    /// cursor where control continues. Fails where an index reached resolves to
    /// nothing, or nesting runs longer than the fuel given.
    #[verifier::loop_isolation(false)]
    fn build_statement(
        &self,
        ctx: &mut IrBuilderContext,
        s: Idx,
        current_block: &mut IrBlockIndex,
        fuel: usize,
        efuel: usize,
        tfuel: usize,
    ) -> (r: Result<(), LoweringError>)
        requires
            old(ctx).wf(),
            old(ctx).module_arena.block_arena@.contains_key(*old(current_block)),
        ensures
            final(ctx).wf(),
            grows_from(*old(ctx), *final(ctx), *old(current_block)),
            final(ctx).module_arena.block_arena@.contains_key(*final(current_block)),
            *final(current_block) == *old(current_block)
                || !old(ctx).module_arena.block_arena@.contains_key(*final(current_block)),
            r is Ok <==> stmt_ok(old(ctx).program.program_arena, s, fuel as nat, efuel as nat, tfuel as nat),
            !old(ctx).program.program_arena.statement_arena@.contains_key(s) ==> r == Err::<(), LoweringError>(
                LoweringError::DanglingStatement(s),
            ),
            r is Ok ==> stmt_at(
                old(ctx).program.program_arena,
                final(ctx).module_arena,
                old(ctx).void_index,
                old(ctx).unknown_index,
                s,
                *old(current_block),
                block_list(old(ctx).module_arena, *old(current_block)).len() as int,
                fuel as nat,
                efuel as nat,
                tfuel as nat,
            ),
            r is Ok ==> final(ctx).module_arena.instruction_arena@.len() == old(ctx).module_arena.instruction_arena@.len()
                + stmt_instrs(old(ctx).program.program_arena, s, fuel as nat, efuel as nat),
            r is Ok ==> final(ctx).module_arena.block_arena@.len() == old(ctx).module_arena.block_arena@.len()
                + stmt_blocks(old(ctx).program.program_arena, s, fuel as nat),
            r is Ok ==> stmt_end(
                old(ctx).program.program_arena,
                final(ctx).module_arena,
                s,
                *old(current_block),
                block_list(old(ctx).module_arena, *old(current_block)).len() as int,
                fuel as nat,
                efuel as nat,
            ) == (*final(current_block), block_list(final(ctx).module_arena, *final(current_block)).len() as int),
        decreases fuel,
    {
        let ghost start = *ctx;
        let ghost cur = *current_block;
        let ghost l0 = block_list(start.module_arena, cur).len() as int;
        let program: &Program = ctx.program;
        let ghost pa = program.program_arena;
        let ghost void = start.void_index;
        let ghost unknown = start.unknown_index;
        let stmt = match program.statement(s) {
            Ok(x) => x,
            Err(err) => {
                return Err(err);
            },
        };
        if fuel == 0 {
            return Err(LoweringError::Cycle);
        }
        match stmt {
            Statement::If { condition, body, else_if } => {
                let c = match self.build_expression(ctx, *condition, *current_block, efuel, tfuel) {
                    Ok(c) => c,
                    Err(err) => {
                        proof {
                            lemma_grows_in_block_from(start, *ctx, cur);
                        }
                        return Err(err);
                    },
                };
                let ghost c1 = *ctx;
                proof {
                    lemma_grows_in_block_from(start, c1, cur);
                }
                let true_branch = ctx.new_block();
                let false_branch = ctx.new_block();
                let ghost c3 = *ctx;
                proof {
                    assert(c3.module_arena.instruction_arena@.contains_key(c));
                }
                let branch = IrInstruction::Branch { condition: c, true_branch, false_branch };
                let bi = ctx.ins(*current_block, branch);
                let ghost mid = *ctx;
                proof {
                    assert(c1.module_arena.block_arena@.dom() == start.module_arena.block_arena@.dom());
                    assert(c1.module_arena.block_arena@.len() == start.module_arena.block_arena@.len());
                    assert(mid.module_arena.block_arena@.dom() =~= c3.module_arena.block_arena@.dom());
                    assert(mid.module_arena.block_arena@.len() == start.module_arena.block_arena@.len() + 2);
                    assert(block_list(mid.module_arena, true_branch) == block_list(c3.module_arena, true_branch));
                    assert(body@.take(0) =~= Seq::<Idx>::empty());
                    assert(grows_from(c1, mid, cur)) by {
                        assert forall|x: Idx| #[trigger] mid.module_arena.block_arena@.contains_key(x)
                            && !c1.module_arena.block_arena@.contains_key(x) implies mid.blocks@.contains(x) by {
                            if x == true_branch {
                                assert(mid.blocks@[mid.blocks@.len() - 2] == x);
                            } else {
                                assert(mid.blocks@[mid.blocks@.len() - 1] == x);
                            }
                        }
                    }
                    lemma_grows_from_trans(start, c1, mid, cur, cur);
                    lemma_lowers_expr_grow(pa, c1.maps(), mid.maps(), void, unknown, *condition, c, efuel as nat, tfuel as nat);
                }
                *current_block = true_branch;
                let mut k: usize = 0;
                while k < body.len()
                    invariant
                        ctx.wf(),
                        grows_from(mid, *ctx, true_branch),
                        ctx.module_arena.block_arena@.contains_key(*current_block),
                        *current_block == true_branch || !mid.module_arena.block_arena@.contains_key(*current_block),
                        stmts_at(pa, ctx.module_arena, void, unknown, body@.take(k as int), true_branch, 0, (fuel - 1) as nat, efuel as nat, tfuel as nat),
                        ctx.module_arena.instruction_arena@.len() == mid.module_arena.instruction_arena@.len()
                            + stmts_instrs(pa, body@.take(k as int), (fuel - 1) as nat, efuel as nat),
                        ctx.module_arena.block_arena@.len() == mid.module_arena.block_arena@.len()
                            + stmts_blocks(pa, body@.take(k as int), (fuel - 1) as nat),
                        stmts_end(pa, ctx.module_arena, body@.take(k as int), true_branch, 0, (fuel - 1) as nat, efuel as nat)
                            == (*current_block, block_list(ctx.module_arena, *current_block).len() as int),
                        k <= body@.len(),
                        forall|j: int| 0 <= j < k ==> stmt_ok(pa, #[trigger] body@[j], (fuel - 1) as nat, efuel as nat, tfuel as nat),
                    decreases body@.len() - k,
                {
                    let ghost before = *ctx;
                    let ghost cb = *current_block;
                    let res = self.build_statement(ctx, body[k], current_block, fuel - 1, efuel, tfuel);
                    proof {
                        lemma_grows_from_trans(mid, before, *ctx, true_branch, cb);
                        if res is Ok {
                            lemma_grows_from_extend(before, *ctx, cb);
                            lemma_stmts_at_grow(pa, before.module_arena, ctx.module_arena, void, unknown, body@.take(k as int), true_branch, 0, (fuel - 1) as nat, efuel as nat, tfuel as nat);
                            assert(body@.take(k + 1).drop_last() =~= body@.take(k as int));
                            assert(body@.take(k + 1).last() == body@[k as int]);
                        }
                    }
                    if res.is_err() {
                        proof {
                            lemma_grows_from_trans(start, mid, *ctx, cur, true_branch);
                            assert(!stmt_ok(pa, body@[k as int], (fuel - 1) as nat, efuel as nat, tfuel as nat));
                        }
                        return res;
                    }
                    k = k + 1;
                }
                let ghost after_body = *ctx;
                proof {
                    assert(body@.take(body@.len() as int) =~= body@);
                    lemma_grows_from_trans(start, mid, after_body, cur, true_branch);
                    assert(mid.module_arena.block_arena@.contains_key(false_branch));
                    assert(mid.module_arena.block_arena@.contains_key(cur));
                }
                *current_block = false_branch;
                match else_if {
                    Some(x) => {
                        proof {
                            assert(after_body.module_arena.block_arena@[false_branch] == mid.module_arena.block_arena@[false_branch]);
                            assert(c3.module_arena.block_arena@[false_branch].instructions@.len() == 0);
                            assert(mid.module_arena.block_arena@[false_branch] == c3.module_arena.block_arena@[false_branch]);
                        }
                        let res = self.build_statement(ctx, *x, current_block, fuel - 1, efuel, tfuel);
                        proof {
                            if res is Ok {
                                lemma_grows_from_extend(after_body, *ctx, false_branch);
                                lemma_stmts_at_grow(pa, after_body.module_arena, ctx.module_arena, void, unknown, body@, true_branch, 0, (fuel - 1) as nat, efuel as nat, tfuel as nat);
                            }
                            lemma_grows_from_trans(start, after_body, *ctx, cur, false_branch);
                            lemma_lowers_expr_grow(pa, mid.maps(), ctx.maps(), void, unknown, *condition, c, efuel as nat, tfuel as nat);
                            assert(after_body.module_arena.block_arena@.contains_key(cur));
                            assert(after_body.module_arena.block_arena@[cur] == mid.module_arena.block_arena@[cur]);
                            assert(ctx.module_arena.block_arena@[cur] == mid.module_arena.block_arena@[cur]);
                            assert(mid.module_arena.block_arena@[cur].instructions@.last() == bi);
                            assert(mid.module_arena.instruction_arena@.contains_key(bi));
                            assert(after_body.module_arena.instruction_arena@[bi] == branch);
                            assert(ctx.module_arena.instruction_arena@[bi] == branch);
                            if res is Ok {
                                lemma_grows_from_trans(c1, mid, after_body, cur, true_branch);
                                lemma_grows_from_trans(c1, after_body, *ctx, cur, false_branch);
                                lemma_grows_from_extend(c1, *ctx, cur);
                                lemma_expr_at_grow(pa, c1.module_arena, ctx.module_arena, void, unknown, *condition, cur, l0, efuel as nat, tfuel as nat);
                                let kc = l0 + expr_count(pa, *condition, efuel as nat);
                                assert(block_list(c1.module_arena, cur)[kc - 1] == c);
                                assert(block_list(ctx.module_arena, cur)[kc - 1] == c);
                            }
                        }
                        res
                    },
                    None => {
                        proof {
                            lemma_lowers_expr_grow(pa, mid.maps(), ctx.maps(), void, unknown, *condition, c, efuel as nat, tfuel as nat);
                            assert(ctx.module_arena.block_arena@[cur] == mid.module_arena.block_arena@[cur]);
                            assert(mid.module_arena.block_arena@[cur].instructions@.last() == bi);
                            assert(mid.module_arena.instruction_arena@.contains_key(bi));
                            assert(ctx.module_arena.instruction_arena@[bi] == branch);
                            assert(c3.module_arena.block_arena@[false_branch].instructions@.len() == 0);
                            assert(mid.module_arena.block_arena@[false_branch] == c3.module_arena.block_arena@[false_branch]);
                            assert(ctx.module_arena.block_arena@[false_branch] == mid.module_arena.block_arena@[false_branch]);
                            lemma_grows_from_trans(c1, mid, after_body, cur, true_branch);
                            lemma_grows_from_extend(c1, *ctx, cur);
                            lemma_expr_at_grow(pa, c1.module_arena, ctx.module_arena, void, unknown, *condition, cur, l0, efuel as nat, tfuel as nat);
                            let kc = l0 + expr_count(pa, *condition, efuel as nat);
                            assert(block_list(c1.module_arena, cur)[kc - 1] == c);
                            assert(block_list(ctx.module_arena, cur)[kc - 1] == c);
                        }
                        Ok(())
                    },
                }
            },
            Statement::Call { function, args } => {
                let fun = match self.build_expression(ctx, *function, *current_block, efuel, tfuel) {
                    Ok(x) => x,
                    Err(err) => {
                        proof {
                            lemma_grows_in_block_from(start, *ctx, cur);
                        }
                        return Err(err);
                    },
                };
                let mut xs: Vec<IrInstructionIndex> = Vec::new();
                let mut k: usize = 0;
                while k < args.len()
                    invariant
                        ctx.wf(),
                        grows_in_block(start, *ctx, cur),
                        *current_block == cur,
                        ctx.module_arena.block_arena@.contains_key(cur),
                        block_list(ctx.module_arena, cur).len() == block_list(start.module_arena, cur).len()
                            + expr_count(pa, *function, efuel as nat) + args_count(pa, args@.take(k as int), efuel as nat),
                        ctx.module_arena.instruction_arena@.len() == start.module_arena.instruction_arena@.len()
                            + expr_count(pa, *function, efuel as nat) + args_count(pa, args@.take(k as int), efuel as nat),
                        ctx.module_arena.block_arena@.len() == start.module_arena.block_arena@.len(),
                        k <= args@.len(),
                        xs@.len() == k,
                        lowers_expr(pa, ctx.maps(), void, unknown, *function, fun, efuel as nat, tfuel as nat),
                        expr_ok(pa, *function, efuel as nat, tfuel as nat),
                        forall|j: int| 0 <= j < k ==> expr_ok(pa, #[trigger] args@[j], efuel as nat, tfuel as nat),
                        forall|j: int| 0 <= j < k ==>
                            lowers_expr(pa, ctx.maps(), void, unknown, #[trigger] args@[j], xs@[j], efuel as nat, tfuel as nat),
                        expr_at(pa, ctx.module_arena, void, unknown, *function, cur, l0, efuel as nat, tfuel as nat),
                        fun == block_list(ctx.module_arena, cur)[l0 + expr_count(pa, *function, efuel as nat) - 1],
                        args_at(pa, ctx.module_arena, void, unknown, args@.take(k as int), xs@, cur,
                            l0 + expr_count(pa, *function, efuel as nat), efuel as nat, tfuel as nat),
                    decreases args@.len() - k,
                {
                    let ghost before = *ctx;
                    let x = match self.build_expression(ctx, args[k], *current_block, efuel, tfuel) {
                        Ok(x) => x,
                        Err(err) => {
                            proof {
                                lemma_grows_in_block_trans(start, before, *ctx, cur);
                                lemma_grows_in_block_from(start, *ctx, cur);
                                assert(!expr_ok(pa, args@[k as int], efuel as nat, tfuel as nat));
                            }
                            return Err(err);
                        },
                    };
                    proof {
                        assert(args@.take(k + 1).drop_last() =~= args@.take(k as int));
                        lemma_lowers_expr_grow(pa, before.maps(), ctx.maps(), void, unknown, *function, fun, efuel as nat, tfuel as nat);
                        assert forall|j: int| 0 <= j < k implies
                            lowers_expr(pa, ctx.maps(), void, unknown, #[trigger] args@[j], xs@[j], efuel as nat, tfuel as nat) by {
                            lemma_lowers_expr_grow(pa, before.maps(), ctx.maps(), void, unknown, args@[j], xs@[j], efuel as nat, tfuel as nat);
                        }
                        lemma_grows_in_block_trans(start, before, *ctx, cur);
                        lemma_grows_in_block_extend(before, *ctx, cur);
                        let nf = expr_count(pa, *function, efuel as nat);
                        lemma_expr_at_grow(pa, before.module_arena, ctx.module_arena, void, unknown, *function, cur, l0, efuel as nat, tfuel as nat);
                        assert(block_list(ctx.module_arena, cur)[l0 + nf - 1] == block_list(before.module_arena, cur)[l0 + nf - 1]);
                        lemma_args_at_grow(pa, before.module_arena, ctx.module_arena, void, unknown, args@.take(k as int), xs@, cur, l0 + nf, efuel as nat, tfuel as nat);
                    }
                    let ghost xs0 = xs@;
                    xs.push(x);
                    proof {
                        assert(xs@.drop_last() =~= xs0);
                        assert(args@.take(k + 1).last() == args@[k as int]);
                    }
                    k = k + 1;
                }
                let call = IrInstruction::FunctionCall { function: fun, args: xs };
                let ghost mid = *ctx;
                proof {
                    assert(args@.take(args@.len() as int) =~= args@);
                    assert forall|j: int| 0 <= j < xs@.len() implies ctx.module_arena.instruction_arena@.contains_key(#[trigger] xs@[j]) by {
                        assert(lowers_expr(pa, ctx.maps(), void, unknown, args@[j], xs@[j], efuel as nat, tfuel as nat));
                    }
                    assert(computes(pa, mid.maps(), void, unknown, Expression::FunctionCall { function: *function, args: *args }, call, efuel as nat, tfuel as nat));
                }
                ctx.ins(*current_block, call);
                proof {
                    assert(ctx.module_arena.block_arena@.dom() =~= mid.module_arena.block_arena@.dom());
                    assert(grows_in_block(mid, *ctx, cur));
                    lemma_grows_in_block_trans(start, mid, *ctx, cur);
                    lemma_grows_in_block_from(start, *ctx, cur);
                    lemma_computes_grow(pa, mid.maps(), ctx.maps(), void, unknown, Expression::FunctionCall { function: *function, args: *args }, call, efuel as nat, tfuel as nat);
                    lemma_grows_in_block_extend(mid, *ctx, cur);
                    let nf = expr_count(pa, *function, efuel as nat);
                    lemma_expr_at_grow(pa, mid.module_arena, ctx.module_arena, void, unknown, *function, cur, l0, efuel as nat, tfuel as nat);
                    assert(block_list(ctx.module_arena, cur)[l0 + nf - 1] == block_list(mid.module_arena, cur)[l0 + nf - 1]);
                    lemma_args_at_grow(pa, mid.module_arena, ctx.module_arena, void, unknown, args@, xs@, cur, l0 + nf, efuel as nat, tfuel as nat);
                }
                Ok(())
            },
            Statement::Return { value } => {
                let v = match self.build_expression(ctx, *value, *current_block, efuel, tfuel) {
                    Ok(x) => x,
                    Err(err) => {
                        proof {
                            lemma_grows_in_block_from(start, *ctx, cur);
                        }
                        return Err(err);
                    },
                };
                let ret = IrInstruction::Return { value: v };
                let ghost mid = *ctx;
                ctx.ins(*current_block, ret);
                proof {
                    assert(ctx.module_arena.block_arena@.dom() =~= mid.module_arena.block_arena@.dom());
                    assert(grows_in_block(mid, *ctx, cur));
                    lemma_grows_in_block_trans(start, mid, *ctx, cur);
                    lemma_grows_in_block_from(start, *ctx, cur);
                    lemma_lowers_expr_grow(pa, mid.maps(), ctx.maps(), void, unknown, *value, v, efuel as nat, tfuel as nat);
                    lemma_grows_in_block_extend(mid, *ctx, cur);
                    lemma_expr_at_grow(pa, mid.module_arena, ctx.module_arena, void, unknown, *value, cur, l0, efuel as nat, tfuel as nat);
                    let k = l0 + expr_count(pa, *value, efuel as nat);
                    assert(block_list(mid.module_arena, cur)[k - 1] == v);
                    assert(block_list(ctx.module_arena, cur)[k - 1] == v);
                }
                Ok(())
            },
            _ => {
                proof {
                    lemma_grows_in_block_from(start, *ctx, cur);
                }
                Ok(())
            },
        }
    }

    /// Lowers a whole program: one IR function per function declaration, in the
    /// order of the declarations; every other kind of declaration is skipped.
    /// Fails, with an internal error, exactly where an index that lowering
    /// follows resolves to nothing or statements, expressions or reference
    /// types reach themselves again.
    #[verifier::loop_isolation(false)]
    #[verifier::spinoff_prover]
    #[verifier::rlimit(80)]
    pub fn convert(&self, program: Program) -> (r: Result<Module, LoweringError>)
        requires
            program.program_arena.wf(),
        ensures
            r is Ok <==> all_functions_ok(program.program_arena),
            r is Ok ==> module_lowers(program, r->Ok_0),
    {
        let ghost pa = program.program_arena;
        let ghost nodes = pa.node_arena@;
        let mut ctx = IrBuilderContext::new(&program);
        let sfuel = program.program_arena.statement_arena.len();
        let efuel = program.program_arena.expression_arena.len();
        let tfuel = program.program_arena.type_arena.len();
        let order = program.program_arena.node_arena.indices();
        let ghost void = ctx.void_index;
        let ghost unknown = ctx.unknown_index;
        proof {
            assert(order@.take(0) =~= Seq::<Idx>::empty());
        }
        let mut i: usize = 0;
        while i < order.len()
            invariant
                ctx.wf(),
                ctx.program == &program,
                ctx.void_index == void,
                ctx.unknown_index == unknown,
                void != unknown,
                ctx.module_arena.node_arena.removal_count() == 0,
                i <= order@.len(),
                ctx.module_arena.node_arena.order().len() == function_nodes(nodes, order@.take(i as int)).len(),
                forall|x: Idx| #[trigger] ctx.module_arena.block_arena@.contains_key(x) ==> exists|k: int|
                    0 <= k < ctx.module_arena.node_arena.order().len()
                    && #[trigger] ir_function_of(ctx.module_arena.node_arena@[ctx.module_arena.node_arena.order()[k]]).blocks@.contains(x),
                forall|k: int| 0 <= k < function_nodes(nodes, order@.take(i as int)).len() ==> func_ok(
                    pa,
                    function_of(nodes[#[trigger] function_nodes(nodes, order@.take(i as int))[k]]),
                    sfuel as nat,
                    efuel as nat,
                    tfuel as nat,
                ),
                forall|k: int| 0 <= k < function_nodes(nodes, order@.take(i as int)).len() ==> {
                    &&& ctx.module_arena.node_arena@[#[trigger] ctx.module_arena.node_arena.order()[k]] is Function
                    &&& lowers_function(
                        pa,
                        ctx.maps(),
                        void,
                        unknown,
                        function_of(nodes[function_nodes(nodes, order@.take(i as int))[k]]),
                        ir_function_of(ctx.module_arena.node_arena@[ctx.module_arena.node_arena.order()[k]]),
                        tfuel as nat,
                    )
                    &&& stmts_at(
                        pa,
                        ctx.module_arena,
                        void,
                        unknown,
                        function_of(nodes[function_nodes(nodes, order@.take(i as int))[k]]).statements@,
                        ir_function_of(ctx.module_arena.node_arena@[ctx.module_arena.node_arena.order()[k]]).blocks@[0],
                        0,
                        sfuel as nat,
                        efuel as nat,
                        tfuel as nat,
                    )
                    &&& body_closed(
                        pa,
                        ctx.module_arena,
                        function_of(nodes[function_nodes(nodes, order@.take(i as int))[k]]).statements@,
                        ir_function_of(ctx.module_arena.node_arena@[ctx.module_arena.node_arena.order()[k]]).blocks@[0],
                        sfuel as nat,
                        efuel as nat,
                    )
                },
            decreases order@.len() - i,
        {
            let ghost before = ctx;
            let ghost fs = function_nodes(nodes, order@.take(i as int));
            proof {
                assert(order@.take(i + 1).drop_last() =~= order@.take(i as int));
                assert(order@.contains(order@[i as int]));
            }
            match program.program_arena.node_arena.get(order[i]) {
                Some(Node::Function(ast_function)) => {
                    let node = match self.build_function(&mut ctx, ast_function, sfuel, efuel, tfuel) {
                        Ok(n) => n,
                        Err(err) => {
                            proof {
                                let all = function_nodes(nodes, pa.node_arena.order());
                                lemma_function_nodes_prefix(nodes, order@, i + 1);
                                assert(all[fs.len() as int] == order@[i as int]);
                            }
                            return Err(err);
                        },
                    };
                    let ghost mid = ctx;
                    proof {
                        assert forall|k: int| 0 <= k < fs.len() implies lowers_function(
                            pa,
                            mid.maps(),
                            void,
                            unknown,
                            function_of(nodes[#[trigger] fs[k]]),
                            ir_function_of(mid.module_arena.node_arena@[mid.module_arena.node_arena.order()[k]]),
                            tfuel as nat,
                        ) by {
                            let ir = before.module_arena.node_arena;
                            lemma_lowers_function_grow(pa, before.maps(), mid.maps(), void, unknown,
                                function_of(nodes[fs[k]]), ir_function_of(ir@[ir.order()[k]]), tfuel as nat);
                        }
                        assert forall|k: int| 0 <= k < fs.len() implies stmts_at(
                            pa,
                            mid.module_arena,
                            void,
                            unknown,
                            function_of(nodes[#[trigger] fs[k]]).statements@,
                            ir_function_of(mid.module_arena.node_arena@[mid.module_arena.node_arena.order()[k]]).blocks@[0],
                            0,
                            sfuel as nat,
                            efuel as nat,
                            tfuel as nat,
                        ) && body_closed(
                            pa,
                            mid.module_arena,
                            function_of(nodes[fs[k]]).statements@,
                            ir_function_of(mid.module_arena.node_arena@[mid.module_arena.node_arena.order()[k]]).blocks@[0],
                            sfuel as nat,
                            efuel as nat,
                        ) by {
                            let ir = before.module_arena.node_arena;
                            lemma_body_kept(pa, before.module_arena, mid.module_arena, void, unknown,
                                function_of(nodes[fs[k]]).statements@, ir_function_of(ir@[ir.order()[k]]).blocks@[0],
                                sfuel as nat, efuel as nat, tfuel as nat);
                        }
                    }
                    let r = ctx.add_node(node);
                    proof {
                        let ir = ctx.module_arena.node_arena;
                        assert(ir.order()[fs.len() as int] == r);
                        assert forall|k: int| 0 <= k < fs.len() implies ir.order()[k] == before.module_arena.node_arena.order()[k] by {}
                        reveal(ModuleArena::wf);
                        assert(before.module_arena.wf());
                        assert(before.module_arena.node_arena.wf());
                        assert(mid.module_arena.node_arena == before.module_arena.node_arena);
                        assert forall|k: int| 0 <= k < fs.len() implies ir.order()[k] != r by {
                            let o = before.module_arena.node_arena.order();
                            assert(o.contains(o[k]));
                            lemma_walk_is_live(before.module_arena.node_arena);
                        }
                        assert forall|k: int| 0 <= k < fs.len() implies #[trigger] ir@[ir.order()[k]] == before.module_arena.node_arena@[ir.order()[k]] by {
                            assert(ir.order()[k] != r);
                        }
                        assert(blocks_extend(mid.module_arena, ctx.module_arena)) by {
                            assert forall|x: Idx| #[trigger] mid.module_arena.block_arena@.contains_key(x) implies
                                list_extends(mid.module_arena.block_arena@[x].instructions@, ctx.module_arena.block_arena@[x].instructions@) by {}
                        }
                        assert forall|k: int| 0 <= k <= fs.len() implies stmts_at(
                            pa,
                            ctx.module_arena,
                            void,
                            unknown,
                            function_of(nodes[#[trigger] function_nodes(nodes, order@.take(i + 1))[k]]).statements@,
                            ir_function_of(ir@[ir.order()[k]]).blocks@[0],
                            0,
                            sfuel as nat,
                            efuel as nat,
                            tfuel as nat,
                        ) && body_closed(
                            pa,
                            ctx.module_arena,
                            function_of(nodes[function_nodes(nodes, order@.take(i + 1))[k]]).statements@,
                            ir_function_of(ir@[ir.order()[k]]).blocks@[0],
                            sfuel as nat,
                            efuel as nat,
                        ) by {
                            let fs1 = function_nodes(nodes, order@.take(i + 1));
                            if k < fs.len() {
                                assert(fs1[k] == fs[k]);
                                assert(ir@[ir.order()[k]] == mid.module_arena.node_arena@[mid.module_arena.node_arena.order()[k]]);
                            } else {
                                assert(fs1[k] == order@[i as int]);
                                assert(ir@[ir.order()[k]] == node);
                            }
                            lemma_body_kept(pa, mid.module_arena, ctx.module_arena, void, unknown,
                                function_of(nodes[fs1[k]]).statements@, ir_function_of(ir@[ir.order()[k]]).blocks@[0],
                                sfuel as nat, efuel as nat, tfuel as nat);
                        }
                        assert forall|x: Idx| #[trigger] ctx.module_arena.block_arena@.contains_key(x) implies exists|k: int|
                            0 <= k < ir.order().len() && #[trigger] ir_function_of(ir@[ir.order()[k]]).blocks@.contains(x) by {
                            if before.module_arena.block_arena@.contains_key(x) {
                                let k = choose|k: int| 0 <= k < before.module_arena.node_arena.order().len()
                                    && #[trigger] ir_function_of(before.module_arena.node_arena@[before.module_arena.node_arena.order()[k]]).blocks@.contains(x);
                                assert(ir@[ir.order()[k]] == before.module_arena.node_arena@[ir.order()[k]]);
                                assert(ir_function_of(ir@[ir.order()[k]]).blocks@.contains(x));
                            } else {
                                assert(ir@[ir.order()[fs.len() as int]] == node);
                                assert(ir_function_of(ir@[ir.order()[fs.len() as int]]).blocks@.contains(x));
                            }
                        }
                    }
                },
                _ => {},
            }
            i = i + 1;
        }
        proof {
            assert(order@.take(order@.len() as int) =~= order@);
        }
        let module_arena = ctx.module_arena;
        let void_index = ctx.void_index;
        let unknown_index = ctx.unknown_index;
        Ok(Module {
            path: program.path,
            name: program.file_name,
            imports: program.imports,
            module_arena,
            void_index,
            unknown_index,
        })
    }

    /// Lowers a function: an entry block first, then the parameters' types, the
    /// body in source order from the entry block, and the return type.
    #[verifier::loop_isolation(false)]
    fn build_function(&self, ctx: &mut IrBuilderContext, func: &AstFunction, sfuel: usize, efuel: usize, tfuel: usize) -> (r: Result<IrNode, LoweringError>)
        requires
            old(ctx).wf(),
        ensures
            final(ctx).wf(),
            final(ctx).program == old(ctx).program,
            final(ctx).void_index == old(ctx).void_index,
            final(ctx).unknown_index == old(ctx).unknown_index,
            maps_grow(old(ctx).maps(), final(ctx).maps()),
            final(ctx).module_arena.node_arena == old(ctx).module_arena.node_arena,
            r is Ok <==> func_ok(old(ctx).program.program_arena, *func, sfuel as nat, efuel as nat, tfuel as nat),
            r is Ok ==> {
                let n = r->Ok_0;
                &&& n is Function
                &&& node_refs_resolve(final(ctx).module_arena, n)
                &&& lowers_function(
                    old(ctx).program.program_arena,
                    final(ctx).maps(),
                    old(ctx).void_index,
                    old(ctx).unknown_index,
                    *func,
                    ir_function_of(n),
                    tfuel as nat,
                )
                &&& !old(ctx).module_arena.block_arena@.contains_key(ir_function_of(n).blocks@[0])
                &&& forall|x: Idx| #[trigger] final(ctx).module_arena.block_arena@.contains_key(x)
                    && !old(ctx).module_arena.block_arena@.contains_key(x) ==> ir_function_of(n).blocks@.contains(x)
                &&& forall|x: Idx| #[trigger] old(ctx).module_arena.block_arena@.contains_key(x)
                    ==> final(ctx).module_arena.block_arena@.contains_key(x)
                &&& blocks_extend(old(ctx).module_arena, final(ctx).module_arena)
                &&& final(ctx).module_arena.instruction_arena@.len() == old(ctx).module_arena.instruction_arena@.len()
                    + stmts_instrs(old(ctx).program.program_arena, func.statements@, sfuel as nat, efuel as nat)
                &&& final(ctx).module_arena.block_arena@.len() == old(ctx).module_arena.block_arena@.len() + 1
                    + stmts_blocks(old(ctx).program.program_arena, func.statements@, sfuel as nat)
                &&& forall|x: Idx| #[trigger] old(ctx).module_arena.block_arena@.contains_key(x)
                    ==> final(ctx).module_arena.block_arena@[x] == old(ctx).module_arena.block_arena@[x]
                &&& final(ctx).module_arena.block_arena@.contains_key(stmts_end(
                    old(ctx).program.program_arena, final(ctx).module_arena, func.statements@,
                    ir_function_of(n).blocks@[0], 0, sfuel as nat, efuel as nat).0)
                &&& stmts_end(old(ctx).program.program_arena, final(ctx).module_arena, func.statements@,
                    ir_function_of(n).blocks@[0], 0, sfuel as nat, efuel as nat).1 == block_list(final(ctx).module_arena,
                    stmts_end(old(ctx).program.program_arena, final(ctx).module_arena, func.statements@,
                    ir_function_of(n).blocks@[0], 0, sfuel as nat, efuel as nat).0).len()
                &&& stmts_at(
                    old(ctx).program.program_arena,
                    final(ctx).module_arena,
                    old(ctx).void_index,
                    old(ctx).unknown_index,
                    func.statements@,
                    ir_function_of(n).blocks@[0],
                    0,
                    sfuel as nat,
                    efuel as nat,
                    tfuel as nat,
                )
            },
    {
        let ghost start = *ctx;
        let ghost pa = ctx.program.program_arena;
        let ghost void = start.void_index;
        let ghost unknown = start.unknown_index;
        ctx.blocks = Vec::new();
        let entry = ctx.new_block();
        let mut current_block = entry;
        let ghost after_entry = *ctx;
        let mut params: Vec<IrTypedName> = Vec::new();
        let mut k: usize = 0;
        while k < func.params.len()
            invariant
                ctx.wf(),
                ctx.program == start.program,
                ctx.void_index == void,
                ctx.unknown_index == unknown,
                maps_grow(after_entry.maps(), ctx.maps()),
                ctx.module_arena.node_arena == start.module_arena.node_arena,
                ctx.module_arena.block_arena == after_entry.module_arena.block_arena,
                ctx.module_arena.instruction_arena == start.module_arena.instruction_arena,
                ctx.blocks == after_entry.blocks,
                k <= func.params@.len(),
                params@.len() == k,
                forall|j: int| 0 <= j < k && (#[trigger] func.params@[j]).typ is Some ==> type_ok(pa, func.params@[j].typ.unwrap(), tfuel as nat),
                forall|j: int| 0 <= j < k ==> lowers_param(pa, ctx.maps(), void, unknown, #[trigger] func.params@[j], params@[j], tfuel as nat),
                forall|j: int| 0 <= j < k ==> ctx.module_arena.type_arena@.contains_key(#[trigger] params@[j].typ),
            decreases func.params@.len() - k,
        {
            let param = &func.params[k];
            let ghost before = *ctx;
            let typ = match param.typ {
                None => ctx.void_index,
                Some(t) => match self.build_type(ctx, t, tfuel) {
                    Ok(x) => x,
                    Err(err) => return Err(err),
                },
            };
            proof {
                assert forall|j: int| 0 <= j < k implies ctx.module_arena.type_arena@.contains_key(#[trigger] params@[j].typ) by {
                    assert(before.module_arena.type_arena@.contains_key(params@[j].typ));
                    assert(before.maps().types.contains_key(params@[j].typ));
                    assert(ctx.maps().types.contains_key(params@[j].typ));
                }
                assert forall|j: int| 0 <= j < k implies lowers_param(pa, ctx.maps(), void, unknown, #[trigger] func.params@[j], params@[j], tfuel as nat) by {
                    if let Some(t) = func.params@[j].typ {
                        lemma_lowers_type_grow(pa, before.maps(), ctx.maps(), void, unknown, t, params@[j].typ, tfuel as nat);
                    }
                }
            }
            params.push(IrTypedName { typ, name: param.name.clone() });
            k = k + 1;
        }
        let ghost after_params = *ctx;
        proof {
            assert(func.statements@.take(0) =~= Seq::<Idx>::empty());
            assert(block_list(after_params.module_arena, entry).len() == 0);
        }
        let mut k: usize = 0;
        while k < func.statements.len()
            invariant
                ctx.wf(),
                grows_from(after_params, *ctx, entry),
                ctx.module_arena.block_arena@.contains_key(current_block),
                current_block == entry || !after_params.module_arena.block_arena@.contains_key(current_block),
                stmts_at(pa, ctx.module_arena, void, unknown, func.statements@.take(k as int), entry, 0, sfuel as nat, efuel as nat, tfuel as nat),
                ctx.module_arena.instruction_arena@.len() == after_params.module_arena.instruction_arena@.len()
                    + stmts_instrs(pa, func.statements@.take(k as int), sfuel as nat, efuel as nat),
                ctx.module_arena.block_arena@.len() == after_params.module_arena.block_arena@.len()
                    + stmts_blocks(pa, func.statements@.take(k as int), sfuel as nat),
                stmts_end(pa, ctx.module_arena, func.statements@.take(k as int), entry, 0, sfuel as nat, efuel as nat)
                    == (current_block, block_list(ctx.module_arena, current_block).len() as int),
                k <= func.statements@.len(),
                forall|j: int| 0 <= j < k ==> stmt_ok(pa, #[trigger] func.statements@[j], sfuel as nat, efuel as nat, tfuel as nat),
            decreases func.statements@.len() - k,
        {
            let ghost before = *ctx;
            let ghost cb = current_block;
            let res = self.build_statement(ctx, func.statements[k], &mut current_block, sfuel, efuel, tfuel);
            proof {
                lemma_grows_from_trans(after_params, before, *ctx, entry, cb);
                if res is Ok {
                    lemma_grows_from_extend(before, *ctx, cb);
                    lemma_stmts_at_grow(pa, before.module_arena, ctx.module_arena, void, unknown, func.statements@.take(k as int), entry, 0, sfuel as nat, efuel as nat, tfuel as nat);
                    assert(func.statements@.take(k + 1).drop_last() =~= func.statements@.take(k as int));
                    assert(func.statements@.take(k + 1).last() == func.statements@[k as int]);
                }
            }
            if res.is_err() {
                proof {
                    assert(!stmt_ok(pa, func.statements@[k as int], sfuel as nat, efuel as nat, tfuel as nat));
                }
                return Err(res.unwrap_err());
            }
            k = k + 1;
        }
        let ghost after_body = *ctx;
        let return_type = match self.build_type(ctx, func.return_type, tfuel) {
            Ok(x) => x,
            Err(err) => return Err(err),
        };
        let mut blocks: Vec<IrBlockIndex> = Vec::new();
        std::mem::swap(&mut blocks, &mut ctx.blocks);
        let f = IrFunction {
            access: Access::from(func.access),
            name: func.name.clone(),
            params,
            type_params: Vec::new(),
            return_type,
            blocks,
        };
        proof {
            assert forall|j: int| 0 <= j < func.params@.len() implies lowers_param(pa, ctx.maps(), void, unknown, #[trigger] func.params@[j], f.params@[j], tfuel as nat) by {
                if let Some(t) = func.params@[j].typ {
                    lemma_lowers_type_grow(pa, after_params.maps(), ctx.maps(), void, unknown, t, f.params@[j].typ, tfuel as nat);
                }
            }
            assert(func.statements@.take(func.statements@.len() as int) =~= func.statements@);
            lemma_grows_from_extend(after_params, after_body, entry);
            assert(blocks_extend(after_body.module_arena, ctx.module_arena)) by {
                assert forall|x: Idx| #[trigger] after_body.module_arena.block_arena@.contains_key(x) implies
                    list_extends(after_body.module_arena.block_arena@[x].instructions@, ctx.module_arena.block_arena@[x].instructions@) by {}
            }
            lemma_stmts_at_grow(pa, after_body.module_arena, ctx.module_arena, void, unknown, func.statements@, entry, 0, sfuel as nat, efuel as nat, tfuel as nat);
            assert forall|x: Idx| #[trigger] start.module_arena.block_arena@.contains_key(x) implies
                ctx.module_arena.block_arena@[x] == start.module_arena.block_arena@[x] by {
                assert(after_entry.module_arena.block_arena@[x] == start.module_arena.block_arena@[x]);
                assert(after_params.module_arena.block_arena@.contains_key(x));
                assert(x != entry);
                assert(after_body.module_arena.block_arena@[x] == after_params.module_arena.block_arena@[x]);
            }
            assert(blocks_extend(start.module_arena, ctx.module_arena)) by {
                assert forall|x: Idx| #[trigger] start.module_arena.block_arena@.contains_key(x) implies
                    ctx.module_arena.block_arena@.contains_key(x)
                    && list_extends(start.module_arena.block_arena@[x].instructions@, ctx.module_arena.block_arena@[x].instructions@) by {
                    assert(after_entry.module_arena.block_arena@[x] == start.module_arena.block_arena@[x]);
                    assert(after_params.module_arena.block_arena@.contains_key(x));
                    let l0 = start.module_arena.block_arena@[x].instructions@;
                    let l1 = after_body.module_arena.block_arena@[x].instructions@;
                    assert(list_extends(l0, l1));
                    assert(ctx.module_arena.block_arena@[x] == after_body.module_arena.block_arena@[x]);
                }
            }
            assert(grows_from(after_params, after_body, entry));
            assert(maps_grow(after_params.maps(), after_body.maps()));
            assert(after_params.blocks@[0] == entry);
            assert(f.blocks@[0] == entry);
            assert(f.blocks@.contains(entry));
            assert forall|x: Idx| #[trigger] ctx.module_arena.block_arena@.contains_key(x)
                && !start.module_arena.block_arena@.contains_key(x) implies f.blocks@.contains(x) by {
                if x != entry {
                    assert(!after_params.module_arena.block_arena@.contains_key(x));
                    assert(after_body.module_arena.block_arena@.contains_key(x));
                }
            }
            assert forall|x: Idx| #[trigger] start.module_arena.block_arena@.contains_key(x)
                implies ctx.module_arena.block_arena@.contains_key(x) by {
                assert(after_params.module_arena.block_arena@.contains_key(x));
            }
            assert forall|j: int| 0 <= j < f.blocks@.len() implies ctx.module_arena.block_arena@.contains_key(#[trigger] f.blocks@[j]) by {
                assert(after_body.module_arena.block_arena@.contains_key(f.blocks@[j]));
            }
            assert forall|j: int| 0 <= j < f.params@.len() implies ctx.module_arena.type_arena@.contains_key(#[trigger] f.params@[j].typ) by {
                assert(after_params.module_arena.type_arena@.contains_key(f.params@[j].typ));
                assert(after_params.maps().types.contains_key(f.params@[j].typ));
                assert(after_body.maps().types.contains_key(f.params@[j].typ));
                assert(ctx.maps().types.contains_key(f.params@[j].typ));
            }
        }
        Ok(IrNode::Function(f))
    }

    /// Translates the source type under `ast_type` into an IR type, storing the
    /// new types it needs. Fails only where a chain of reference types runs
    /// longer than `fuel`.
    fn build_type(&self, ctx: &mut IrBuilderContext, ast_type: TypeIndex, fuel: usize) -> (r: Result<IrTypeIndex, LoweringError>)
        requires
            old(ctx).wf(),
        ensures
            final(ctx).wf(),
            final(ctx).program == old(ctx).program,
            final(ctx).void_index == old(ctx).void_index,
            final(ctx).unknown_index == old(ctx).unknown_index,
            final(ctx).blocks == old(ctx).blocks,
            maps_grow(old(ctx).maps(), final(ctx).maps()),
            final(ctx).module_arena.node_arena == old(ctx).module_arena.node_arena,
            final(ctx).module_arena.block_arena == old(ctx).module_arena.block_arena,
            final(ctx).module_arena.instruction_arena == old(ctx).module_arena.instruction_arena,
            r is Ok <==> type_ok(old(ctx).program.program_arena, ast_type, fuel as nat),
            !old(ctx).program.program_arena.type_arena@.contains_key(ast_type) ==> r == Err::<IrTypeIndex, LoweringError>(
                LoweringError::DanglingType(ast_type),
            ),
            r is Ok ==> match old(ctx).program.program_arena.type_arena@[ast_type] {
                Type::Base(name) => if int_ty_named(name.name@) is Some || uint_ty_named(name.name@) is Some
                    || float_ty_named(name.name@) is Some {
                    !old(ctx).module_arena.type_arena@.contains_key(r->Ok_0)
                } else {
                    final(ctx).module_arena.type_arena == old(ctx).module_arena.type_arena
                },
                Type::Reference(..) => !old(ctx).module_arena.type_arena@.contains_key(r->Ok_0),
                _ => final(ctx).module_arena.type_arena == old(ctx).module_arena.type_arena,
            },
            match r {
                Ok(t) => final(ctx).module_arena.type_arena@.contains_key(t) && lowers_type(
                    old(ctx).program.program_arena,
                    final(ctx).maps(),
                    old(ctx).void_index,
                    old(ctx).unknown_index,
                    ast_type,
                    t,
                    fuel as nat,
                ),
                Err(e) => e == LoweringError::Cycle || e is DanglingType,
            },
        decreases fuel,
    {
        let program: &Program = ctx.program;
        match program.program_arena.type_arena.get(ast_type) {
            None => Err(LoweringError::DanglingType(ast_type)),
            Some(Type::Base(name)) => {
                let n = name.name.as_str();
                if let Some(k) = IntTy::from(n) {
                    Ok(ctx.add_type(IrType::Int(k)))
                } else if let Some(k) = UIntTy::from(n) {
                    Ok(ctx.add_type(IrType::UInt(k)))
                } else if let Some(k) = FloatTy::from(n) {
                    Ok(ctx.add_type(IrType::Float(k)))
                } else if crate::text::str_eq(n, "Void") {
                    Ok(ctx.void_index)
                } else {
                    Ok(ctx.unknown_index)
                }
            },
            Some(Type::Reference(inner, kind, cap)) => {
                if fuel == 0 {
                    return Err(LoweringError::Cycle);
                }
                let ghost before = ctx.maps();
                match self.build_type(ctx, *inner, fuel - 1) {
                    Err(e) => Err(e),
                    Ok(i) => {
                        let ghost mid = ctx.maps();
                        let r = ctx.add_type(IrType::Reference(i, *kind, *cap));
                        proof {
                            if before.types.contains_key(r) {
                                assert(mid.types.contains_key(r));
                            }
                            assert(!before.types.contains_key(r));
                            lemma_lowers_type_grow(
                                program.program_arena,
                                mid,
                                ctx.maps(),
                                ctx.void_index,
                                ctx.unknown_index,
                                *inner,
                                i,
                                (fuel - 1) as nat,
                            );
                        }
                        Ok(r)
                    },
                }
            },
            Some(_) => Ok(ctx.unknown_index),
        }
    }
}

} // verus!
