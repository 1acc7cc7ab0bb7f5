//! A deterministic textual dump of a module's IR: each function's signature and
//! its blocks, with every instruction on a line of its own.
use vstd::prelude::*;
use vstd::string::StringExecFns;
use crate::arena::{lemma_walk_is_live, Idx};
use crate::ast::binop_text;
use crate::ir::{
    block_refs_resolve, float_ty_text, int_ty_text, lemma_wf_unfold, node_refs_resolve, uint_ty_text, IrBlock,
    IrInstruction, IrNode, IrType, IrTypedName, Module, ModuleArena,
};
use crate::lang::joined;
use crate::refcap::{refcap_text, PointerKind};
use crate::text::{decimal, decimal_text, signed_decimal, signed_text};

verus! {

/// Two spaces per level of indentation.
pub open spec fn spaces(n: nat) -> Seq<char>
    decreases n,
{
    if n == 0 {
        Seq::empty()
    } else {
        spaces((n - 1) as nat) + "  "@
    }
}

/// A text buffer that prefixes what it is given with the current indentation.
struct PrintManager {
    buffer: String,
    current_indent: u32,
}

impl PrintManager {
    fn new() -> (r: Self)
        ensures
            r.buffer@.len() == 0,
            r.current_indent == 0,
    {
        PrintManager { buffer: String::new(), current_indent: 0 }
    }

    fn indent(&mut self)
        requires
            old(self).current_indent < u32::MAX,
        ensures
            final(self).current_indent == old(self).current_indent + 1,
            final(self).buffer == old(self).buffer,
    {
        self.current_indent = self.current_indent + 1;
    }

    fn dedent(&mut self)
        requires
            old(self).current_indent > 0,
        ensures
            final(self).current_indent == old(self).current_indent - 1,
            final(self).buffer == old(self).buffer,
    {
        self.current_indent = self.current_indent - 1;
    }

    fn whitespace(&self) -> (r: String)
        ensures
            r@ == spaces(self.current_indent as nat),
    {
        let mut s = String::new();
        let mut i: u32 = 0;
        while i < self.current_indent
            invariant
                i <= self.current_indent,
                s@ == spaces(i as nat),
            decreases self.current_indent - i,
        {
            s.append("  ");
            i = i + 1;
        }
        s
    }

    fn write(&mut self, s: &str)
        ensures
            final(self).buffer@ == old(self).buffer@ + spaces(old(self).current_indent as nat) + s@,
            final(self).current_indent == old(self).current_indent,
    {
        let whitespace = self.whitespace();
        self.buffer.append(whitespace.as_str());
        self.buffer.append(s);
    }
}

/// The name an operand gets: `%n`, where `n` is the position at which the
/// index was first met in the current function.
pub open spec fn name_of(seen: Seq<Idx>, i: Idx) -> Seq<char> {
    "%"@ + decimal_text((if seen.contains(i) { seen.index_of(i) } else { seen.len() as int }) as nat)
}

/// The indices met, once `i` has been met too.
pub open spec fn seen_after(seen: Seq<Idx>, i: Idx) -> Seq<Idx> {
    if seen.contains(i) {
        seen
    } else {
        seen.push(i)
    }
}

/// The indices met, once every one of `xs` has been met in order.
pub open spec fn seen_after_all(seen: Seq<Idx>, xs: Seq<Idx>) -> Seq<Idx>
    decreases xs.len(),
{
    if xs.len() == 0 {
        seen
    } else {
        seen_after(seen_after_all(seen, xs.drop_last()), xs.last())
    }
}

/// The names of `xs`, met in order, joined by `, `.
pub open spec fn names_text(seen: Seq<Idx>, xs: Seq<Idx>) -> Seq<char>
    decreases xs.len(),
{
    if xs.len() == 0 {
        Seq::empty()
    } else {
        let head = names_text(seen, xs.drop_last());
        let sep = if xs.len() > 1 { ", "@ } else { Seq::empty() };
        head + sep + name_of(seen_after_all(seen, xs.drop_last()), xs.last())
    }
}

/// The operands of an instruction in the order they are named.
pub open spec fn operands(ins: IrInstruction) -> Seq<Idx> {
    match ins {
        IrInstruction::Branch { condition, true_branch, false_branch } => seq![condition, true_branch, false_branch],
        IrInstruction::Return { value } => seq![value],
        IrInstruction::BinOp(a, _, b) => seq![a, b],
        IrInstruction::FunctionCall { function, args } => seq![function] + args@,
        IrInstruction::New { typ, allocator } => seq![typ, allocator],
        IrInstruction::Dereference { pointer } => seq![pointer],
        IrInstruction::Denull { optional } => seq![optional],
        _ => Seq::empty(),
    }
}

/// How an instruction is written, given the indices met before it.
pub open spec fn instruction_text(seen: Seq<Idx>, ins: IrInstruction) -> Seq<char> {
    let ops = operands(ins);
    let n0 = name_of(seen, ops[0]);
    let s1 = seen_after(seen, ops[0]);
    let n1 = name_of(s1, ops[1]);
    let s2 = seen_after(s1, ops[1]);
    let n2 = name_of(s2, ops[2]);
    match ins {
        IrInstruction::BoolLiteral(b) => if b { "true"@ } else { "false"@ },
        IrInstruction::NatLiteral(n) => signed_text(n as int),
        IrInstruction::Branch { .. } => "branch "@ + n0 + " "@ + n1 + " "@ + n2,
        IrInstruction::Return { .. } => "return "@ + n0,
        IrInstruction::BinOp(_, op, _) => "binop.`"@ + binop_text(op) + "` "@ + n0 + " "@ + n1,
        IrInstruction::Ref(a) => "ref %"@ + a@,
        IrInstruction::FunctionCall { args, .. } => "call "@ + n0 + " ("@ + names_text(s1, args@) + ")"@,
        IrInstruction::New { .. } => "new "@ + n0 + " "@ + n1,
        IrInstruction::Dereference { .. } => "deref.`&` "@ + n0,
        IrInstruction::Denull { .. } => "denull.`!!` "@ + n0,
        IrInstruction::FieldAccessor { .. } => "bad_ins[FieldAccessor]"@,
        IrInstruction::Borrow { .. } => "bad_ins[Borrow]"@,
        IrInstruction::Unsafe { .. } => "bad_ins[Unsafe]"@,
        IrInstruction::Error => "bad_ins[Error]"@,
    }
}

/// The indices met once an instruction is written.
pub open spec fn instruction_seen(seen: Seq<Idx>, ins: IrInstruction) -> Seq<Idx> {
    let ops = operands(ins);
    let s1 = seen_after(seen, ops[0]);
    let s2 = seen_after(s1, ops[1]);
    match ins {
        IrInstruction::Branch { .. } => seen_after(s2, ops[2]),
        IrInstruction::Return { .. } => s1,
        IrInstruction::BinOp(..) => s2,
        IrInstruction::FunctionCall { args, .. } => seen_after_all(s1, args@),
        IrInstruction::New { .. } => s2,
        IrInstruction::Dereference { .. } => s1,
        IrInstruction::Denull { .. } => s1,
        _ => seen,
    }
}

/// The sigil of a pointer kind.
pub open spec fn pointer_text(k: PointerKind) -> Seq<char> {
    match k {
        PointerKind::Raw => "*"@,
        PointerKind::Managed => "&"@,
    }
}

/// How a type is written; a referent that is missing, or nested deeper than
/// `fuel`, is written `unknown_type`.
pub open spec fn type_text(types: Map<Idx, IrType>, t: IrType, fuel: nat) -> Seq<char>
    decreases fuel,
{
    match t {
        IrType::Bool => "Bool"@,
        IrType::UInt(u) => uint_ty_text(u),
        IrType::Int(i) => int_ty_text(i),
        IrType::Float(f) => float_ty_text(f),
        IrType::Void => "Void"@,
        IrType::Unknown => "Unknown"@,
        IrType::Reference(inner, kind, cap) => {
            let inner_text = if fuel > 0 && types.contains_key(inner) {
                type_text(types, types[inner], (fuel - 1) as nat)
            } else {
                "unknown_type"@
            };
            pointer_text(kind) + refcap_text(cap) + " "@ + inner_text
        },
        IrType::Base(_) => "bad_type[Base]"@,
        IrType::Refinement(..) => "bad_type[Refinement]"@,
        IrType::Row(_) => "bad_type[Row]"@,
        IrType::Optional(_) => "bad_type[Optional]"@,
        IrType::Function(..) => "bad_type[Function]"@,
    }
}

/// How the type under an index is written: `unknown_type` where it is missing.
pub open spec fn type_at_text(types: Map<Idx, IrType>, t: Idx) -> Seq<char> {
    if types.contains_key(t) {
        type_text(types, types[t], types.len())
    } else {
        "unknown_type"@
    }
}

/// Parameters written `name: type`, joined by `, `.
pub open spec fn params_text(types: Map<Idx, IrType>, params: Seq<IrTypedName>) -> Seq<char>
    decreases params.len(),
{
    if params.len() == 0 {
        Seq::empty()
    } else {
        let sep = if params.len() > 1 { ", "@ } else { Seq::empty() };
        params_text(types, params.drop_last()) + sep + params.last().name@ + ": "@ + type_at_text(types, params.last().typ)
    }
}

/// The lines of a block's instructions, `%j = ...`, indented twice.
pub open spec fn lines_text(m: ModuleArena, seen: Seq<Idx>, ins: Seq<Idx>) -> Seq<char>
    decreases ins.len(),
{
    if ins.len() == 0 {
        Seq::empty()
    } else {
        let s = lines_seen(m, seen, ins.drop_last());
        lines_text(m, seen, ins.drop_last()) + spaces(2) + "%"@ + decimal_text((ins.len() - 1) as nat) + " = "@
            + instruction_text(s, m.instruction_arena@[ins.last()]) + "\n"@
    }
}

/// The indices met once a block's instructions are written.
pub open spec fn lines_seen(m: ModuleArena, seen: Seq<Idx>, ins: Seq<Idx>) -> Seq<Idx>
    decreases ins.len(),
{
    if ins.len() == 0 {
        seen
    } else {
        instruction_seen(lines_seen(m, seen, ins.drop_last()), m.instruction_arena@[ins.last()])
    }
}

/// The blocks of a function, each headed `block#i:` and indented once.
pub open spec fn blocks_text(m: ModuleArena, blocks: Seq<Idx>) -> Seq<char>
    decreases blocks.len(),
{
    if blocks.len() == 0 {
        Seq::empty()
    } else {
        let s = blocks_seen(m, blocks.drop_last());
        blocks_text(m, blocks.drop_last()) + spaces(1) + "block#"@ + decimal_text((blocks.len() - 1) as nat) + ":\n"@
            + lines_text(m, s, m.block_arena@[blocks.last()].instructions@)
    }
}

/// The indices met once a function's blocks are written.
pub open spec fn blocks_seen(m: ModuleArena, blocks: Seq<Idx>) -> Seq<Idx>
    decreases blocks.len(),
{
    if blocks.len() == 0 {
        Seq::empty()
    } else {
        lines_seen(m, blocks_seen(m, blocks.drop_last()), m.block_arena@[blocks.last()].instructions@)
    }
}

/// How a declaration is written: a function's signature and blocks, then an
/// empty line.
pub open spec fn node_text(m: ModuleArena, n: IrNode) -> Seq<char> {
    match n {
        IrNode::Function(f) => "function "@ + f.name@ + "("@ + params_text(m.type_arena@, f.params@) + ") -> "@
            + type_at_text(m.type_arena@, f.return_type) + ":\n"@ + blocks_text(m, f.blocks@) + "\n"@,
        IrNode::Struct { .. } => "unknown node: Struct"@,
        IrNode::Error => "unknown node: Error"@,
    }
}

/// The declarations under `order`, one after another.
pub open spec fn nodes_text(m: ModuleArena, order: Seq<Idx>) -> Seq<char>
    decreases order.len(),
{
    if order.len() == 0 {
        Seq::empty()
    } else {
        nodes_text(m, order.drop_last()) + node_text(m, m.node_arena@[order.last()])
    }
}

/// The import lines.
pub open spec fn imports_text(imports: Seq<Seq<Seq<char>>>) -> Seq<char>
    decreases imports.len(),
{
    if imports.len() == 0 {
        Seq::empty()
    } else {
        imports_text(imports.drop_last()) + "import "@ + joined(imports.last()) + "\n"@
    }
}

/// The dump of a module: its header, its imports, and its declarations in the
/// order a walk of the node arena visits them.
pub open spec fn module_text(module: Module) -> Seq<char> {
    "module "@ + joined(module.path@) + "::"@ + module.name@ + "\n\n"@
        + imports_text(module.imports@.map_values(|p: crate::lang::Path| p@))
        + nodes_text(module.module_arena, module.module_arena.node_arena.order())
}

/// Writes modules into a text buffer.
pub struct IrPrintManager {
    printer: PrintManager,
}

/// The name of `i` among the indices met so far, meeting it if it is new.
fn operand_name(seen: &mut Vec<Idx>, i: Idx) -> (r: String)
    requires
        old(seen)@.no_duplicates(),
    ensures
        r@ == name_of(old(seen)@, i),
        final(seen)@ == seen_after(old(seen)@, i),
        final(seen)@.no_duplicates(),
{
    let mut p: usize = 0;
    while p < seen.len()
        invariant
            seen@ == old(seen)@,
            seen@.no_duplicates(),
            p <= seen@.len(),
            forall|q: int| 0 <= q < p ==> seen@[q] != i,
        decreases seen@.len() - p,
    {
        if seen[p] == i {
            proof {
                assert(seen@.contains(i));
                let j = seen@.index_of(i);
                assert(seen@[j] == i);
                assert(j == p);
            }
            let mut r = String::from_str("%");
            let d = decimal(p as u64);
            r.append(d.as_str());
            proof {
                reveal_strlit("%");
            }
            return r;
        }
        p = p + 1;
    }
    proof {
        assert(!seen@.contains(i));
    }
    let n = seen.len();
    seen.push(i);
    let mut r = String::from_str("%");
    let d = decimal(n as u64);
    r.append(d.as_str());
    proof {
        reveal_strlit("%");
    }
    r
}

impl IrPrintManager {
    /// The buffer is at the outermost level of indentation.
    pub closed spec fn idle(&self) -> bool {
        self.printer.current_indent == 0
    }

    /// What has been written so far.
    pub closed spec fn text(&self) -> Seq<char> {
        self.printer.buffer@
    }

    /// An empty buffer.
    pub fn new() -> (r: Self)
        ensures
            r.idle(),
            r.text().len() == 0,
    {
        IrPrintManager { printer: PrintManager::new() }
    }

    /// What has been written so far.
    pub fn to_string(&self) -> (r: String)
        ensures
            r@ == self.text(),
    {
        self.printer.buffer.clone()
    }

    fn print_type(&self, arena: &ModuleArena, typ: &IrType, fuel: usize) -> (r: String)
        ensures
            r@ == type_text(arena.type_arena@, *typ, fuel as nat),
        decreases fuel,
    {
        match typ {
            IrType::Bool => String::from_str("Bool"),
            IrType::UInt(u) => u.to_string(),
            IrType::Int(i) => i.to_string(),
            IrType::Float(f) => f.to_string(),
            IrType::Void => String::from_str("Void"),
            IrType::Unknown => String::from_str("Unknown"),
            IrType::Reference(inner, kind, cap) => {
                let inner_text = if fuel > 0 {
                    match arena.type_arena.get(*inner) {
                        Some(t) => self.print_type(arena, t, fuel - 1),
                        None => String::from_str("unknown_type"),
                    }
                } else {
                    String::from_str("unknown_type")
                };
                let mut s = String::from_str(
                    match kind {
                        PointerKind::Raw => "*",
                        PointerKind::Managed => "&",
                    },
                );
                let c = cap.to_string();
                s.append(c.as_str());
                s.append(" ");
                s.append(inner_text.as_str());
                s
            },
            IrType::Base(_) => String::from_str("bad_type[Base]"),
            IrType::Refinement(..) => String::from_str("bad_type[Refinement]"),
            IrType::Row(_) => String::from_str("bad_type[Row]"),
            IrType::Optional(_) => String::from_str("bad_type[Optional]"),
            IrType::Function(..) => String::from_str("bad_type[Function]"),
        }
    }

    fn print_type_at(&self, arena: &ModuleArena, t: Idx) -> (r: String)
        requires
            arena.type_arena.wf(),
        ensures
            r@ == type_at_text(arena.type_arena@, t),
    {
        match arena.type_arena.get(t) {
            Some(typ) => {
                let n = arena.type_arena.len();
                self.print_type(arena, typ, n)
            },
            None => String::from_str("unknown_type"),
        }
    }

    fn print_typed_name(&mut self, arena: &ModuleArena, typed_name: &IrTypedName)
        requires
            arena.type_arena.wf(),
        ensures
            final(self).printer.buffer@ == old(self).printer.buffer@ + spaces(old(self).printer.current_indent as nat)
                + typed_name.name@ + ": "@ + type_at_text(arena.type_arena@, typed_name.typ),
            final(self).printer.current_indent == old(self).printer.current_indent,
    {
        let typ_text = self.print_type_at(arena, typed_name.typ);
        let mut s = typed_name.name.clone();
        s.append(": ");
        s.append(typ_text.as_str());
        self.printer.write(s.as_str());
    }

    fn print_instruction(&self, instruction_map: &mut Vec<Idx>, ins: &IrInstruction) -> (r: String)
        requires
            old(instruction_map)@.no_duplicates(),
        ensures
            r@ == instruction_text(old(instruction_map)@, *ins),
            final(instruction_map)@ == instruction_seen(old(instruction_map)@, *ins),
            final(instruction_map)@.no_duplicates(),
    {
        match ins {
            IrInstruction::BoolLiteral(b) => String::from_str(if *b { "true" } else { "false" }),
            IrInstruction::NatLiteral(n) => signed_decimal(*n),
            IrInstruction::Branch { condition, true_branch, false_branch } => {
                let mut s = String::from_str("branch ");
                let a = operand_name(instruction_map, *condition);
                let b = operand_name(instruction_map, *true_branch);
                let c = operand_name(instruction_map, *false_branch);
                s.append(a.as_str());
                s.append(" ");
                s.append(b.as_str());
                s.append(" ");
                s.append(c.as_str());
                s
            },
            IrInstruction::Return { value } => {
                let mut s = String::from_str("return ");
                let a = operand_name(instruction_map, *value);
                s.append(a.as_str());
                s
            },
            IrInstruction::BinOp(x, op, y) => {
                let mut s = String::from_str("binop.`");
                let o = op.to_string();
                let a = operand_name(instruction_map, *x);
                let b = operand_name(instruction_map, *y);
                s.append(o.as_str());
                s.append("` ");
                s.append(a.as_str());
                s.append(" ");
                s.append(b.as_str());
                s
            },
            IrInstruction::Ref(a) => {
                let mut s = String::from_str("ref %");
                s.append(a.as_str());
                s
            },
            IrInstruction::FunctionCall { function, args } => {
                let mut s = String::from_str("call ");
                let f = operand_name(instruction_map, *function);
                s.append(f.as_str());
                s.append(" (");
                let ghost s1 = instruction_map@;
                let ghost head = s@;
                let mut k: usize = 0;
                while k < args.len()
                    invariant
                        k <= args@.len(),
                        instruction_map@.no_duplicates(),
                        instruction_map@ == seen_after_all(s1, args@.take(k as int)),
                        s@ == head + names_text(s1, args@.take(k as int)),
                    decreases args@.len() - k,
                {
                    proof {
                        assert(args@.take(k + 1).drop_last() =~= args@.take(k as int));
                    }
                    if k > 0 {
                        s.append(", ");
                    }
                    let a = operand_name(instruction_map, args[k]);
                    s.append(a.as_str());
                    k = k + 1;
                }
                proof {
                    assert(args@.take(args@.len() as int) =~= args@);
                }
                s.append(")");
                s
            },
            IrInstruction::New { typ, allocator } => {
                let mut s = String::from_str("new ");
                let a = operand_name(instruction_map, *typ);
                let b = operand_name(instruction_map, *allocator);
                s.append(a.as_str());
                s.append(" ");
                s.append(b.as_str());
                s
            },
            IrInstruction::Dereference { pointer } => {
                let mut s = String::from_str("deref.`&` ");
                let a = operand_name(instruction_map, *pointer);
                s.append(a.as_str());
                s
            },
            IrInstruction::Denull { optional } => {
                let mut s = String::from_str("denull.`!!` ");
                let a = operand_name(instruction_map, *optional);
                s.append(a.as_str());
                s
            },
            IrInstruction::FieldAccessor { .. } => String::from_str("bad_ins[FieldAccessor]"),
            IrInstruction::Borrow { .. } => String::from_str("bad_ins[Borrow]"),
            IrInstruction::Unsafe { .. } => String::from_str("bad_ins[Unsafe]"),
            IrInstruction::Error => String::from_str("bad_ins[Error]"),
        }
    }

    fn print_block(&mut self, arena: &ModuleArena, block: &IrBlock, index: usize, instruction_names: &mut Vec<Idx>)
        requires
            old(self).printer.current_indent == 1,
            arena.instruction_arena.wf(),
            block_refs_resolve(*arena, *block),
            old(instruction_names)@.no_duplicates(),
        ensures
            final(self).printer.buffer@ == old(self).printer.buffer@ + spaces(1) + "block#"@ + decimal_text(index as nat) + ":\n"@
                + lines_text(*arena, old(instruction_names)@, block.instructions@),
            final(self).printer.current_indent == 1,
            final(instruction_names)@ == lines_seen(*arena, old(instruction_names)@, block.instructions@),
            final(instruction_names)@.no_duplicates(),
    {
        let mut header = String::from_str("block#");
        let d = decimal(index as u64);
        header.append(d.as_str());
        header.append(":\n");
        self.printer.write(header.as_str());
        let ghost after_header = self.printer.buffer@;
        let ghost seen0 = instruction_names@;
        self.printer.indent();
        let mut j: usize = 0;
        while j < block.instructions.len()
            invariant
                self.printer.current_indent == 2,
                arena.instruction_arena.wf(),
                block_refs_resolve(*arena, *block),
                j <= block.instructions@.len(),
                instruction_names@.no_duplicates(),
                instruction_names@ == lines_seen(*arena, seen0, block.instructions@.take(j as int)),
                self.printer.buffer@ == after_header + lines_text(*arena, seen0, block.instructions@.take(j as int)),
            decreases block.instructions@.len() - j,
        {
            proof {
                assert(block.instructions@.take(j + 1).drop_last() =~= block.instructions@.take(j as int));
                assert(arena.instruction_arena@.contains_key(block.instructions@[j as int]));
            }
            let instruction = match arena.instruction_arena.get(block.instructions[j]) {
                Some(x) => x,
                None => {
                    return;
                },
            };
            let mut line = String::from_str("%");
            let d = decimal(j as u64);
            line.append(d.as_str());
            line.append(" = ");
            let text = self.print_instruction(instruction_names, instruction);
            line.append(text.as_str());
            line.append("\n");
            self.printer.write(line.as_str());
            proof {
                reveal_strlit("%");
                reveal_strlit(" = ");
                reveal_strlit("\n");
                let t = block.instructions@.take(j + 1);
                assert(self.printer.buffer@ =~= after_header + lines_text(*arena, seen0, t));
            }
            j = j + 1;
        }
        proof {
            assert(block.instructions@.take(block.instructions@.len() as int) =~= block.instructions@);
        }
        self.printer.dedent();
    }

    fn print_node(&mut self, arena: &ModuleArena, node: &IrNode)
        requires
            old(self).printer.current_indent == 0,
            arena.wf(),
            node_refs_resolve(*arena, *node),
        ensures
            final(self).printer.buffer@ == old(self).printer.buffer@ + node_text(*arena, *node),
            final(self).printer.current_indent == 0,
    {
        proof {
            lemma_wf_unfold(*arena);
        }
        match node {
            IrNode::Function(func) => {
                let ghost base = self.printer.buffer@;
                let mut head = String::from_str("function ");
                head.append(func.name.as_str());
                head.append("(");
                self.printer.write(head.as_str());
                let ghost after_head = self.printer.buffer@;
                let mut i: usize = 0;
                while i < func.params.len()
                    invariant
                        self.printer.current_indent == 0,
                        arena.type_arena.wf(),
                        i <= func.params@.len(),
                        self.printer.buffer@ == after_head + params_text(arena.type_arena@, func.params@.take(i as int)),
                    decreases func.params@.len() - i,
                {
                    proof {
                        assert(func.params@.take(i + 1).drop_last() =~= func.params@.take(i as int));
                    }
                    if i > 0 {
                        self.printer.write(", ");
                    }
                    self.print_typed_name(arena, &func.params[i]);
                    proof {
                        let t = func.params@.take(i + 1);
                        assert(self.printer.buffer@ =~= after_head + params_text(arena.type_arena@, t));
                    }
                    i = i + 1;
                }
                proof {
                    assert(func.params@.take(func.params@.len() as int) =~= func.params@);
                }
                self.printer.write(") -> ");
                let rt = self.print_type_at(arena, func.return_type);
                self.printer.write(rt.as_str());
                self.printer.write(":\n");
                let ghost after_sig = self.printer.buffer@;
                self.printer.indent();
                let mut instruction_names: Vec<Idx> = Vec::new();
                let mut i: usize = 0;
                while i < func.blocks.len()
                    invariant
                        self.printer.current_indent == 1,
                        arena.instruction_arena.wf(),
                        arena.block_arena.wf(),
                        forall|x: Idx| #[trigger] arena.block_arena@.contains_key(x) ==> block_refs_resolve(*arena, arena.block_arena@[x]),
                        forall|k: int| 0 <= k < func.blocks@.len() ==> arena.block_arena@.contains_key(#[trigger] func.blocks@[k]),
                        i <= func.blocks@.len(),
                        instruction_names@.no_duplicates(),
                        instruction_names@ == blocks_seen(*arena, func.blocks@.take(i as int)),
                        self.printer.buffer@ == after_sig + blocks_text(*arena, func.blocks@.take(i as int)),
                    decreases func.blocks@.len() - i,
                {
                    proof {
                        assert(func.blocks@.take(i + 1).drop_last() =~= func.blocks@.take(i as int));
                        assert(arena.block_arena@.contains_key(func.blocks@[i as int]));
                    }
                    let block = match arena.block_arena.get(func.blocks[i]) {
                        Some(b) => b,
                        None => {
                            return;
                        },
                    };
                    self.print_block(arena, block, i, &mut instruction_names);
                    proof {
                        let t = func.blocks@.take(i + 1);
                        assert(self.printer.buffer@ =~= after_sig + blocks_text(*arena, t));
                    }
                    i = i + 1;
                }
                proof {
                    assert(func.blocks@.take(func.blocks@.len() as int) =~= func.blocks@);
                }
                self.printer.dedent();
                self.printer.write("\n");
                proof {
                    assert(self.printer.buffer@ =~= base + node_text(*arena, *node));
                }
            },
            IrNode::Struct { .. } => {
                self.printer.write("unknown node: Struct");
            },
            IrNode::Error => {
                self.printer.write("unknown node: Error");
            },
        }
    }

    /// Writes the dump of `module`: its header, its imports, then each
    /// declaration in the order a walk of its node arena visits them.
    pub fn print(&mut self, module: &Module)
        requires
            old(self).idle(),
            module.module_arena.wf(),
        ensures
            final(self).idle(),
            final(self).text() == old(self).text() + module_text(*module),
    {
        let mut head = String::from_str("module ");
        let p = module.path.to_string();
        head.append(p.as_str());
        head.append("::");
        head.append(module.name.as_str());
        head.append("\n\n");
        self.printer.write(head.as_str());
        let ghost after_head = self.printer.buffer@;
        let ghost imports = module.imports@.map_values(|p: crate::lang::Path| p@);
        let mut i: usize = 0;
        while i < module.imports.len()
            invariant
                self.printer.current_indent == 0,
                i <= module.imports@.len(),
                imports == module.imports@.map_values(|p: crate::lang::Path| p@),
                self.printer.buffer@ == after_head + imports_text(imports.take(i as int)),
            decreases module.imports@.len() - i,
        {
            proof {
                assert(imports.take(i + 1).drop_last() =~= imports.take(i as int));
            }
            let mut line = String::from_str("import ");
            let ip = module.imports[i].to_string();
            line.append(ip.as_str());
            line.append("\n");
            self.printer.write(line.as_str());
            i = i + 1;
        }
        proof {
            assert(imports.take(module.imports@.len() as int) =~= imports);
            lemma_wf_unfold(module.module_arena);
            lemma_walk_is_live(module.module_arena.node_arena);
        }
        let ghost after_imports = self.printer.buffer@;
        let order = module.module_arena.node_arena.indices();
        let mut k: usize = 0;
        while k < order.len()
            invariant
                self.printer.current_indent == 0,
                module.module_arena.wf(),
                k <= order@.len(),
                order@ == module.module_arena.node_arena.order(),
                forall|x: Idx| #[trigger] order@.contains(x) <==> module.module_arena.node_arena@.contains_key(x),
                self.printer.buffer@ == after_imports + nodes_text(module.module_arena, order@.take(k as int)),
            decreases order@.len() - k,
        {
            proof {
                assert(order@.take(k + 1).drop_last() =~= order@.take(k as int));
                assert(order@.contains(order@[k as int]));
            }
            match module.module_arena.node_arena.get(order[k]) {
                Some(node) => {
                    proof {
                        lemma_wf_unfold(module.module_arena);
                    }
                    self.print_node(&module.module_arena, node);
                },
                None => {},
            }
            k = k + 1;
        }
        proof {
            assert(order@.take(order@.len() as int) =~= order@);
            assert(spaces(0) =~= Seq::<char>::empty());
        }
    }
}

/// Printing depends on nothing but the module's contents: two modules with the
/// same path, name, imports, arena contents and walk order print the same
/// text, so printing one module twice gives the same bytes.
pub proof fn lemma_print_deterministic(a: Module, b: Module)
    requires
        a.path@ == b.path@,
        a.name@ == b.name@,
        a.imports@.map_values(|p: crate::lang::Path| p@) == b.imports@.map_values(|p: crate::lang::Path| p@),
        a.module_arena.type_arena@ == b.module_arena.type_arena@,
        a.module_arena.block_arena@ == b.module_arena.block_arena@,
        a.module_arena.instruction_arena@ == b.module_arena.instruction_arena@,
        a.module_arena.node_arena@ == b.module_arena.node_arena@,
        a.module_arena.node_arena.order() == b.module_arena.node_arena.order(),
    ensures
        module_text(a) == module_text(b),
{
    lemma_nodes_text_congruent(a.module_arena, b.module_arena, a.module_arena.node_arena.order());
}

/// The declarations' text depends only on the arenas' contents.
proof fn lemma_nodes_text_congruent(a: ModuleArena, b: ModuleArena, order: Seq<Idx>)
    requires
        a.type_arena@ == b.type_arena@,
        a.block_arena@ == b.block_arena@,
        a.instruction_arena@ == b.instruction_arena@,
        a.node_arena@ == b.node_arena@,
    ensures
        nodes_text(a, order) == nodes_text(b, order),
    decreases order.len(),
{
    if order.len() > 0 {
        lemma_nodes_text_congruent(a, b, order.drop_last());
        match a.node_arena@[order.last()] {
            IrNode::Function(f) => {
                lemma_blocks_text_congruent(a, b, f.blocks@);
            },
            _ => {},
        }
    }
}

/// The blocks' text, and the indices met, depend only on the arenas' contents.
proof fn lemma_blocks_text_congruent(a: ModuleArena, b: ModuleArena, blocks: Seq<Idx>)
    requires
        a.block_arena@ == b.block_arena@,
        a.instruction_arena@ == b.instruction_arena@,
    ensures
        blocks_text(a, blocks) == blocks_text(b, blocks),
        blocks_seen(a, blocks) == blocks_seen(b, blocks),
    decreases blocks.len(),
{
    if blocks.len() > 0 {
        lemma_blocks_text_congruent(a, b, blocks.drop_last());
        let s = blocks_seen(a, blocks.drop_last());
        lemma_lines_text_congruent(a, b, s, a.block_arena@[blocks.last()].instructions@);
    }
}

/// The instruction lines, and the indices met, depend only on the instructions.
proof fn lemma_lines_text_congruent(a: ModuleArena, b: ModuleArena, seen: Seq<Idx>, ins: Seq<Idx>)
    requires
        a.instruction_arena@ == b.instruction_arena@,
    ensures
        lines_text(a, seen, ins) == lines_text(b, seen, ins),
        lines_seen(a, seen, ins) == lines_seen(b, seen, ins),
    decreases ins.len(),
{
    if ins.len() > 0 {
        lemma_lines_text_congruent(a, b, seen, ins.drop_last());
    }
}

} // verus!
