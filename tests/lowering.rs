use ns_compiler::arena::Idx;
use ns_compiler::ast::{
    Access, AstFunction, BinOpType, Expression, FunctionKind, LoweringError, Node, Program, ProgramArena, Statement,
    Type, TypeName, TypedName,
};
use ns_compiler::ir::{IntTy, IrFunction, IrInstruction, IrNode, IrType, Module};
use ns_compiler::lang::Path;
use ns_compiler::print::IrPrintManager;
use ns_compiler::refcap::{PointerKind, ReferenceCapability};
use ns_compiler::translate::IrBuilder;

fn base(pa: &mut ProgramArena, name: &str) -> Idx {
    pa.type_arena.insert(Type::Base(TypeName::from((Path::new(), name.to_string()))))
}

fn function(name: &str, params: Vec<TypedName>, return_type: Idx, statements: Vec<Idx>) -> Node {
    Node::Function(AstFunction {
        access: Access::Public,
        kind: FunctionKind::Function,
        name: name.to_string(),
        type_params: vec![],
        params,
        return_type,
        statements,
    })
}

fn program(pa: ProgramArena) -> Program {
    Program { path: Path::of("test"), file_name: "test".to_string(), imports: vec![], program_arena: pa }
}

fn functions(m: &Module) -> Vec<IrFunction> {
    m.module_arena
        .node_arena
        .indices()
        .into_iter()
        .map(|i| match m.module_arena.node_arena.get(i) {
            Some(IrNode::Function(f)) => f.clone(),
            _ => panic!("not a function"),
        })
        .collect()
}

fn instructions(m: &Module, block: Idx) -> Vec<(Idx, IrInstruction)> {
    let b = m.module_arena.block_arena.get(block).expect("block");
    b.instructions
        .iter()
        .map(|i| (*i, m.module_arena.instruction_arena.get(*i).expect("instruction").clone()))
        .collect()
}

fn return_literal_program(n: i64) -> Program {
    let mut pa = ProgramArena::new();
    let lit = pa.expression_arena.insert(Expression::NatLiteral(n));
    let ret = pa.statement_arena.insert(Statement::Return { value: lit });
    let rt = base(&mut pa, "Int32");
    pa.node_arena.insert(function("f", vec![], rt, vec![ret]));
    program(pa)
}

#[test]
fn scenario_a_return_literal() {
    let m = IrBuilder::new().convert(return_literal_program(7)).unwrap();
    let fs = functions(&m);
    assert_eq!(fs.len(), 1);
    assert_eq!(fs[0].name, "f");
    assert_eq!(fs[0].blocks.len(), 1);
    let ins = instructions(&m, fs[0].blocks[0]);
    assert_eq!(ins.len(), 2);
    assert!(matches!(ins[0].1, IrInstruction::NatLiteral(7)));
    match &ins[1].1 {
        IrInstruction::Return { value } => assert_eq!(*value, ins[0].0),
        other => panic!("expected a return, got {:?}", other),
    }
    assert!(matches!(m._typ(fs[0].return_type), Some(IrType::Int(IntTy::I32))));
}

fn if_else_program() -> Program {
    let mut pa = ProgramArena::new();
    let cond = pa.expression_arena.insert(Expression::Ref("cond".to_string()));
    let one = pa.expression_arena.insert(Expression::NatLiteral(1));
    let two = pa.expression_arena.insert(Expression::NatLiteral(2));
    let ret1 = pa.statement_arena.insert(Statement::Return { value: one });
    let ret2 = pa.statement_arena.insert(Statement::Return { value: two });
    let iff = pa.statement_arena.insert(Statement::If { condition: cond, body: vec![ret1], else_if: Some(ret2) });
    let rt = base(&mut pa, "Int32");
    pa.node_arena.insert(function("choose", vec![], rt, vec![iff]));
    program(pa)
}

#[test]
fn scenario_b_if_else() {
    let m = IrBuilder::new().convert(if_else_program()).unwrap();
    let fs = functions(&m);
    assert_eq!(fs.len(), 1);
    assert_eq!(fs[0].blocks.len(), 3);
    assert_eq!(m.module_arena.block_arena.len(), 3);
    let entry = instructions(&m, fs[0].blocks[0]);
    assert_eq!(entry.len(), 2);
    assert!(matches!(&entry[0].1, IrInstruction::Ref(s) if s == "cond"));
    let (t, f) = match &entry[1].1 {
        IrInstruction::Branch { condition, true_branch, false_branch } => {
            assert_eq!(*condition, entry[0].0);
            (*true_branch, *false_branch)
        },
        other => panic!("expected a branch, got {:?}", other),
    };
    assert_ne!(t, f);
    assert_eq!(fs[0].blocks[1], t);
    assert_eq!(fs[0].blocks[2], f);
    for (block, n) in [(t, 1), (f, 2)] {
        let ins = instructions(&m, block);
        assert_eq!(ins.len(), 2);
        assert!(matches!(ins[0].1, IrInstruction::NatLiteral(k) if k == n));
        assert!(matches!(ins[1].1, IrInstruction::Return { value } if value == ins[0].0));
    }
}

#[test]
fn if_without_else_leaves_false_block_empty() {
    let mut pa = ProgramArena::new();
    let cond = pa.expression_arena.insert(Expression::BoolLiteral(true));
    let one = pa.expression_arena.insert(Expression::NatLiteral(1));
    let two = pa.expression_arena.insert(Expression::NatLiteral(2));
    let ret1 = pa.statement_arena.insert(Statement::Return { value: one });
    let ret2 = pa.statement_arena.insert(Statement::Return { value: two });
    let iff = pa.statement_arena.insert(Statement::If { condition: cond, body: vec![ret1], else_if: None });
    let rt = base(&mut pa, "Int32");
    pa.node_arena.insert(function("g", vec![], rt, vec![iff, ret2]));
    let m = IrBuilder::new().convert(program(pa)).unwrap();
    let fs = functions(&m);
    assert_eq!(fs[0].blocks.len(), 3);
    // the statement after the conditional lands in the false block
    let f = instructions(&m, fs[0].blocks[2]);
    assert_eq!(f.len(), 2);
    assert!(matches!(f[0].1, IrInstruction::NatLiteral(2)));
}

#[test]
fn scenario_c_parameter_types() {
    let mut pa = ProgramArena::new();
    let unknown_name = base(&mut pa, "Widget");
    let int8 = base(&mut pa, "Int8");
    let rt = base(&mut pa, "Void");
    let params = vec![
        TypedName { name: "a".to_string(), typ: None },
        TypedName { name: "b".to_string(), typ: Some(unknown_name) },
        TypedName { name: "c".to_string(), typ: Some(int8) },
    ];
    pa.node_arena.insert(function("h", params, rt, vec![]));
    let m = IrBuilder::new().convert(program(pa)).unwrap();
    let fs = functions(&m);
    let ps = &fs[0].params;
    assert_eq!(ps.len(), 3);
    assert_eq!(ps[0].name, "a");
    assert_eq!(ps[0].typ, m.void_index);
    assert!(matches!(m._typ(m.void_index), Some(IrType::Void)));
    assert_eq!(ps[1].typ, m.unknown_index);
    assert!(matches!(m._typ(m.unknown_index), Some(IrType::Unknown)));
    assert!(matches!(m._typ(ps[2].typ), Some(IrType::Int(IntTy::I8))));
    assert_eq!(fs[0].return_type, m.void_index);
    assert_eq!(fs[0].blocks.len(), 1);
}

#[test]
fn reference_types_keep_kind_and_capability() {
    let mut pa = ProgramArena::new();
    let inner = base(&mut pa, "UInt64");
    let r = pa.type_arena.insert(Type::Reference(inner, PointerKind::Managed, ReferenceCapability::Iso));
    let opt = pa.type_arena.insert(Type::Optional(inner));
    let params = vec![
        TypedName { name: "r".to_string(), typ: Some(r) },
        TypedName { name: "o".to_string(), typ: Some(opt) },
    ];
    let rt = base(&mut pa, "Float32");
    pa.node_arena.insert(function("k", params, rt, vec![]));
    let m = IrBuilder::new().convert(program(pa)).unwrap();
    let fs = functions(&m);
    match m._typ(fs[0].params[0].typ) {
        Some(IrType::Reference(i, PointerKind::Managed, ReferenceCapability::Iso)) => {
            assert!(matches!(m._typ(*i), Some(IrType::UInt(_))));
        },
        other => panic!("expected a reference, got {:?}", other),
    }
    assert_eq!(fs[0].params[1].typ, m.unknown_index);
    let mut printer = IrPrintManager::new();
    printer.print(&m);
    assert_eq!(
        printer.to_string(),
        "module test::test\n\nfunction k(r: &iso UInt64, o: Unknown) -> Float32:\n  block#0:\n\n"
    );
}

#[test]
fn expressions_lower_operands_first() {
    let mut pa = ProgramArena::new();
    let f = pa.expression_arena.insert(Expression::Ref("add".to_string()));
    let x = pa.expression_arena.insert(Expression::NatLiteral(3));
    let y = pa.expression_arena.insert(Expression::NatLiteral(-4));
    let sum = pa.expression_arena.insert(Expression::BinOp(x, BinOpType::Plus, y));
    let call = pa.statement_arena.insert(Statement::Call { function: f, args: vec![sum, x] });
    let let_stmt = pa.statement_arena.insert(Statement::Let { name: TypedName { name: "z".to_string(), typ: None }, value: x });
    let ret = pa.statement_arena.insert(Statement::Return { value: sum });
    let rt = base(&mut pa, "Int64");
    pa.node_arena.insert(function("main", vec![], rt, vec![call, let_stmt, ret]));
    let m = IrBuilder::new().convert(program(pa)).unwrap();
    let fs = functions(&m);
    let ins = instructions(&m, fs[0].blocks[0]);
    assert_eq!(ins.len(), 10);
    let mut printer = IrPrintManager::new();
    printer.print(&m);
    assert_eq!(
        printer.to_string(),
        "module test::test\n\nfunction main() -> Int64:\n  block#0:\n    %0 = ref %add\n    %1 = 3\n    %2 = -4\n    %3 = binop.`+` %0 %1\n    %4 = 3\n    %5 = call %2 (%3, %4)\n    %6 = 3\n    %7 = -4\n    %8 = binop.`+` %5 %6\n    %9 = return %7\n\n"
    );
}

#[test]
fn print_return_literal() {
    let m = IrBuilder::new().convert(return_literal_program(7)).unwrap();
    let mut printer = IrPrintManager::new();
    printer.print(&m);
    assert_eq!(
        printer.to_string(),
        "module test::test\n\nfunction f() -> Int32:\n  block#0:\n    %0 = 7\n    %1 = return %0\n\n"
    );
}

#[test]
fn printing_twice_is_identical() {
    let m = IrBuilder::new().convert(if_else_program()).unwrap();
    let mut first = IrPrintManager::new();
    first.print(&m);
    let mut second = IrPrintManager::new();
    second.print(&m);
    assert_eq!(first.to_string(), second.to_string());
    // operand names are shared by every index met in the function, whatever
    // arena it addresses: the false block and the first literal of the true
    // block have the same slot and generation
    assert_eq!(
        first.to_string(),
        "module test::test\n\nfunction choose() -> Int32:\n  block#0:\n    %0 = ref %cond\n    %1 = branch %0 %1 %2\n  block#1:\n    %0 = 1\n    %1 = return %2\n  block#2:\n    %0 = 2\n    %1 = return %3\n\n"
    );
}

#[test]
fn non_function_declarations_are_skipped() {
    let mut pa = ProgramArena::new();
    let t = base(&mut pa, "Int32");
    pa.node_arena.insert(Node::TypeAlias { access: Access::Internal, unique: true, name: "Meters".to_string(), value: t });
    pa.node_arena.insert(Node::Error);
    let m = IrBuilder::new().convert(program(pa)).unwrap();
    assert_eq!(m.module_arena.node_arena.len(), 0);
    assert_eq!(m.module_arena.type_arena.len(), 2);
}

#[test]
fn dangling_statement_is_an_internal_error() {
    let mut pa = ProgramArena::new();
    let rt = base(&mut pa, "Int32");
    let bogus = Idx { slot: 40, generation: 0 };
    pa.node_arena.insert(function("f", vec![], rt, vec![bogus]));
    let r = IrBuilder::new().convert(program(pa));
    assert!(matches!(r, Err(LoweringError::DanglingStatement(i)) if i == bogus));
}

#[test]
fn dangling_expression_is_an_internal_error() {
    let mut pa = ProgramArena::new();
    let rt = base(&mut pa, "Int32");
    let bogus = Idx { slot: 9, generation: 3 };
    let ret = pa.statement_arena.insert(Statement::Return { value: bogus });
    pa.node_arena.insert(function("f", vec![], rt, vec![ret]));
    let r = IrBuilder::new().convert(program(pa));
    assert!(matches!(r, Err(LoweringError::DanglingExpression(i)) if i == bogus));
}

#[test]
fn cyclic_expression_is_an_internal_error() {
    let mut pa = ProgramArena::new();
    let rt = base(&mut pa, "Int32");
    let first = Idx { slot: 0, generation: 0 };
    let e = pa.expression_arena.insert(Expression::Borrow { value: first });
    assert_eq!(e, first);
    let ret = pa.statement_arena.insert(Statement::Return { value: e });
    pa.node_arena.insert(function("f", vec![], rt, vec![ret]));
    let r = IrBuilder::new().convert(program(pa));
    assert!(matches!(r, Err(LoweringError::Cycle)));
}

#[test]
fn dangling_type_is_an_internal_error() {
    let mut pa = ProgramArena::new();
    let bogus = Idx { slot: 12, generation: 0 };
    pa.node_arena.insert(function("f", vec![], bogus, vec![]));
    let r = IrBuilder::new().convert(program(pa));
    assert!(matches!(r, Err(LoweringError::DanglingType(i)) if i == bogus));
}

#[test]
fn bindings_alone_add_no_instruction() {
    let mut pa = ProgramArena::new();
    let one = pa.expression_arena.insert(Expression::NatLiteral(1));
    let let_stmt = pa.statement_arena.insert(Statement::Let { name: TypedName { name: "x".to_string(), typ: None }, value: one });
    let assign = pa.statement_arena.insert(Statement::Assign { name: "x".to_string(), value: one });
    let unsafe_stmt = pa.statement_arena.insert(Statement::Unsafe { body: vec![let_stmt] });
    let rt = base(&mut pa, "Void");
    pa.node_arena.insert(function("quiet", vec![], rt, vec![let_stmt, assign, unsafe_stmt]));
    let m = IrBuilder::new().convert(program(pa)).unwrap();
    assert_eq!(m.module_arena.instruction_arena.len(), 0);
    assert_eq!(m.module_arena.block_arena.len(), 1);
    assert_eq!(functions(&m)[0].blocks.len(), 1);
}

#[test]
fn call_statement_layout() {
    let mut pa = ProgramArena::new();
    let f = pa.expression_arena.insert(Expression::Ref("f".to_string()));
    let one = pa.expression_arena.insert(Expression::NatLiteral(1));
    let yes = pa.expression_arena.insert(Expression::BoolLiteral(true));
    let call = pa.statement_arena.insert(Statement::Call { function: f, args: vec![one, yes] });
    let rt = base(&mut pa, "Void");
    pa.node_arena.insert(function("caller", vec![], rt, vec![call]));
    let m = IrBuilder::new().convert(program(pa)).unwrap();
    let ins = instructions(&m, functions(&m)[0].blocks[0]);
    assert_eq!(ins.len(), 4);
    assert!(matches!(&ins[0].1, IrInstruction::Ref(s) if s == "f"));
    assert!(matches!(ins[1].1, IrInstruction::NatLiteral(1)));
    assert!(matches!(ins[2].1, IrInstruction::BoolLiteral(true)));
    match &ins[3].1 {
        IrInstruction::FunctionCall { function, args } => {
            assert_eq!(*function, ins[0].0);
            assert_eq!(args, &vec![ins[1].0, ins[2].0]);
        },
        other => panic!("expected a call, got {:?}", other),
    }
}
