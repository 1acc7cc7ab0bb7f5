use ns_compiler::arena::Idx;
use ns_compiler::ast::{
    module_name, Access, AstFunction, BinOpType, Expression, FunctionKind, LoweringError, Node, Program, ProgramArena,
    Statement, Type, TypeName,
};
use ns_compiler::compiler::Compiler;
use ns_compiler::ir::{IrBlock, IrInstruction, IrType, ModuleArena};
use ns_compiler::lang::Path;
use ns_compiler::translate::IrBuilderContext;

#[test]
fn module_name_stops_at_first_dot() {
    assert_eq!(module_name("test.ns"), "test");
    assert_eq!(module_name("archive.tar.gz"), "archive");
    assert_eq!(module_name("plain"), "plain");
    assert_eq!(module_name(".hidden"), "");
    assert_eq!(module_name(""), "");
}

fn sample(pa: &mut ProgramArena) -> (Idx, Idx, Idx) {
    let a = pa.expression_arena.insert(Expression::Ref("a".to_string()));
    let b = pa.expression_arena.insert(Expression::NatLiteral(2));
    let sum = pa.expression_arena.insert(Expression::BinOp(a, BinOpType::Star, b));
    (a, b, sum)
}

#[test]
fn expression_short_and_long_forms() {
    let mut pa = ProgramArena::new();
    let (a, b, sum) = sample(&mut pa);
    let field = pa.expression_arena.insert(Expression::FieldAccessor { aggregate: a, value: b });
    let t = pa.type_arena.insert(Type::Base(TypeName::from((Path::of("m"), "X".to_string()))));
    let new = pa.expression_arena.insert(Expression::New { typ: t, allocator: a });
    let call = Expression::FunctionCall { function: a, args: vec![b, sum] };
    let sum_e = pa.expression_arena.get(sum).unwrap().clone();
    assert_eq!(sum_e.display(), "#0 * #1");
    assert_eq!(sum_e.to_string(&pa), "(a * 2)");
    assert_eq!(pa.expression_arena.get(field).unwrap().to_string(&pa), "a.2");
    assert_eq!(pa.expression_arena.get(field).unwrap().display(), "#0.1");
    assert_eq!(pa.expression_arena.get(new).unwrap().to_string(&pa), "new m::X in a");
    assert_eq!(pa.expression_arena.get(new).unwrap().display(), "new #0 in #0");
    assert_eq!(call.display(), "#0([1, 2])");
    assert_eq!(call.to_string(&pa), "#0([1, 2])");
    assert_eq!(Expression::Dereference { pointer: sum }.display(), "2.*");
    assert_eq!(Expression::Denull { optional: b }.display(), "1.?");
    assert_eq!(Expression::Borrow { value: a }.display(), "0.&");
    assert_eq!(Expression::Unsafe { value: b }.display(), "unsafe 1");
    assert_eq!(Expression::BoolLiteral(false).display(), "false");
    let dangling = Expression::BinOp(a, BinOpType::Or, Idx { slot: 77, generation: 0 });
    assert_eq!(dangling.to_string(&pa), "#0 or #77");
}

#[test]
fn program_lookups() {
    let mut pa = ProgramArena::new();
    let (a, _, _) = sample(&mut pa);
    let s = pa.statement_arena.insert(Statement::Return { value: a });
    let p = Program { path: Path::of("p"), file_name: "p".to_string(), imports: vec![], program_arena: pa };
    assert!(matches!(p.statement(s), Ok(Statement::Return { .. })));
    assert!(matches!(p.expression(a), Ok(Expression::Ref(_))));
    let missing = Idx { slot: 5, generation: 9 };
    assert!(matches!(p.statement(missing), Err(LoweringError::DanglingStatement(i)) if i == missing));
    assert!(matches!(p.expression(missing), Err(LoweringError::DanglingExpression(i)) if i == missing));
}

#[test]
fn compiler_keeps_lowered_modules() {
    let mut compiler = Compiler::new();
    let mut pa = ProgramArena::new();
    let (_, _, sum) = sample(&mut pa);
    let ret = pa.statement_arena.insert(Statement::Return { value: sum });
    let rt = pa.type_arena.insert(Type::Base(TypeName::from((Path::new(), "Bool".to_string()))));
    pa.node_arena.insert(Node::Function(AstFunction {
        access: Access::Internal,
        kind: FunctionKind::Behaviour,
        name: "go".to_string(),
        type_params: vec![],
        params: vec![],
        return_type: rt,
        statements: vec![ret],
    }));
    let program = Program { path: Path::of("app"), file_name: "main".to_string(), imports: vec![Path::of("std")], program_arena: pa };
    let i = compiler.add_program(program).unwrap();
    let m = compiler.modules.get(i).unwrap();
    assert_eq!(m.name, "main");
    assert_eq!(m.imports.len(), 1);
    assert_eq!(m.module_arena.instruction_arena.len(), 4);
    assert_eq!(compiler.modules.len(), 1);

    let mut bad = ProgramArena::new();
    let rt = bad.type_arena.insert(Type::Base(TypeName::from((Path::new(), "Int8".to_string()))));
    bad.node_arena.insert(Node::Function(AstFunction {
        access: Access::Public,
        kind: FunctionKind::Function,
        name: "broken".to_string(),
        type_params: vec![],
        params: vec![],
        return_type: rt,
        statements: vec![Idx { slot: 3, generation: 0 }],
    }));
    let program = Program { path: Path::of("app"), file_name: "bad".to_string(), imports: vec![], program_arena: bad };
    assert!(compiler.add_program(program).is_err());
    assert_eq!(compiler.modules.len(), 1);
}

#[test]
fn context_blocks_and_instructions() {
    let p = Program { path: Path::new(), file_name: String::new(), imports: vec![], program_arena: ProgramArena::new() };
    let mut ctx = IrBuilderContext::new(&p);
    assert_ne!(ctx.void_index, ctx.unknown_index);
    assert_eq!(ctx.module_arena.type_arena.len(), 2);
    let b = ctx.new_block();
    assert_eq!(ctx.blocks, vec![b]);
    let i = ctx.ins(b, IrInstruction::BoolLiteral(true));
    let j = ctx.ins(b, IrInstruction::Return { value: i });
    assert_eq!(ctx.module_arena.block_arena.get(b).unwrap().instructions, vec![i, j]);
    assert!(matches!(ctx.module_arena.type_arena.get(ctx.void_index), Some(IrType::Void)));
}

#[test]
fn add_instruction_appends_to_block() {
    let mut arena = ModuleArena::new();
    let mut block = IrBlock::new();
    arena._add_instruction(&mut block, IrInstruction::NatLiteral(5));
    arena._add_instruction(&mut block, IrInstruction::Error);
    assert_eq!(block.instructions.len(), 2);
    assert!(matches!(arena.instruction_arena.get(block.instructions[0]), Some(IrInstruction::NatLiteral(5))));
    assert!(matches!(arena.instruction_arena.get(block.instructions[1]), Some(IrInstruction::Error)));
}
