//! The intermediate representation: types, declarations, basic blocks and
//! instructions of one module, held in arenas and addressed by index.
use vstd::prelude::*;
use vstd::string::StringExecFns;
use crate::arena::{Idx, IndexedArena};
use crate::ast::BinOpType;
use crate::lang::Path;
use crate::refcap::{PointerKind, ReferenceCapability};
use crate::text::str_eq;

verus! {

pub type IrTypeIndex = Idx;

pub type IrNodeIndex = Idx;

pub type IrBlockIndex = Idx;

pub type IrInstructionIndex = Idx;

/// The arenas of one module's IR.
pub struct ModuleArena {
    pub type_arena: IndexedArena<IrType>,
    pub node_arena: IndexedArena<IrNode>,
    pub block_arena: IndexedArena<IrBlock>,
    pub instruction_arena: IndexedArena<IrInstruction>,
}

/// Every index inside an IR type resolves in the module's arenas.
pub open spec fn type_refs_resolve(m: ModuleArena, t: IrType) -> bool {
    match t {
        IrType::Refinement(_, base, block) => m.type_arena@.contains_key(base) && m.block_arena@.contains_key(block),
        IrType::Row(fields) => forall|k: int| 0 <= k < fields@.len() ==> m.type_arena@.contains_key(#[trigger] fields@[k].typ),
        IrType::Reference(inner, _, _) => m.type_arena@.contains_key(inner),
        IrType::Optional(inner) => m.type_arena@.contains_key(inner),
        IrType::Function(args, ret) => m.type_arena@.contains_key(ret)
            && forall|k: int| 0 <= k < args@.len() ==> m.type_arena@.contains_key(#[trigger] args@[k]),
        _ => true,
    }
}

/// Every index inside an instruction resolves in the module's arenas.
pub open spec fn instruction_refs_resolve(m: ModuleArena, i: IrInstruction) -> bool {
    let ins = m.instruction_arena@;
    match i {
        IrInstruction::BinOp(a, _, b) => ins.contains_key(a) && ins.contains_key(b),
        IrInstruction::FieldAccessor { aggregate, value } => ins.contains_key(aggregate) && ins.contains_key(value),
        IrInstruction::FunctionCall { function, args } => ins.contains_key(function)
            && forall|k: int| 0 <= k < args@.len() ==> ins.contains_key(#[trigger] args@[k]),
        IrInstruction::New { typ, allocator } => m.type_arena@.contains_key(typ) && ins.contains_key(allocator),
        IrInstruction::Dereference { pointer } => ins.contains_key(pointer),
        IrInstruction::Denull { optional } => ins.contains_key(optional),
        IrInstruction::Borrow { value } => ins.contains_key(value),
        IrInstruction::Branch { condition, true_branch, false_branch } => ins.contains_key(condition)
            && m.block_arena@.contains_key(true_branch) && m.block_arena@.contains_key(false_branch),
        IrInstruction::Return { value } => ins.contains_key(value),
        IrInstruction::Unsafe { value } => ins.contains_key(value),
        _ => true,
    }
}

/// Every instruction a block lists resolves.
pub open spec fn block_refs_resolve(m: ModuleArena, b: IrBlock) -> bool {
    forall|k: int| 0 <= k < b.instructions@.len() ==> m.instruction_arena@.contains_key(#[trigger] b.instructions@[k])
}

/// Every index inside a declaration resolves; a function has an entry block.
pub open spec fn node_refs_resolve(m: ModuleArena, n: IrNode) -> bool {
    match n {
        IrNode::Function(f) => {
            &&& m.type_arena@.contains_key(f.return_type)
            &&& forall|k: int| 0 <= k < f.params@.len() ==> m.type_arena@.contains_key(#[trigger] f.params@[k].typ)
            &&& forall|k: int| 0 <= k < f.type_params@.len() ==> m.type_arena@.contains_key(#[trigger] f.type_params@[k].typ)
            &&& f.blocks@.len() > 0
            &&& forall|k: int| 0 <= k < f.blocks@.len() ==> m.block_arena@.contains_key(#[trigger] f.blocks@[k])
        },
        IrNode::Struct { nodes } => forall|k: int| 0 <= k < nodes@.len() ==> m.node_arena@.contains_key(#[trigger] nodes@[k]),
        IrNode::Error => true,
    }
}

impl ModuleArena {
    /// The arenas are consistent and every index stored in the module resolves
    /// within the module itself.
    #[verifier::opaque]
    pub open spec fn wf(&self) -> bool {
        &&& self.type_arena.wf()
        &&& self.node_arena.wf()
        &&& self.block_arena.wf()
        &&& self.instruction_arena.wf()
        &&& forall|i: Idx| #[trigger] self.type_arena@.contains_key(i) ==> type_refs_resolve(*self, self.type_arena@[i])
        &&& forall|i: Idx| #[trigger] self.instruction_arena@.contains_key(i) ==> instruction_refs_resolve(*self, self.instruction_arena@[i])
        &&& forall|i: Idx| #[trigger] self.block_arena@.contains_key(i) ==> block_refs_resolve(*self, self.block_arena@[i])
        &&& forall|i: Idx| #[trigger] self.node_arena@.contains_key(i) ==> node_refs_resolve(*self, self.node_arena@[i])
    }

    /// Four empty arenas.
    pub fn new() -> (r: ModuleArena)
        ensures
            r.wf(),
            r.type_arena@ == Map::<Idx, IrType>::empty(),
            r.node_arena@ == Map::<Idx, IrNode>::empty(),
            r.block_arena@ == Map::<Idx, IrBlock>::empty(),
            r.instruction_arena@ == Map::<Idx, IrInstruction>::empty(),
            r.type_arena.removal_count() == 0,
            r.node_arena.removal_count() == 0,
            r.block_arena.removal_count() == 0,
            r.instruction_arena.removal_count() == 0,
            r.node_arena.order().len() == 0,
    {
        reveal(ModuleArena::wf);
        ModuleArena {
            type_arena: IndexedArena::new(),
            node_arena: IndexedArena::new(),
            block_arena: IndexedArena::new(),
            instruction_arena: IndexedArena::new(),
        }
    }

    /// Stores an instruction and appends its index to `block`.
    pub fn _add_instruction(&mut self, block: &mut IrBlock, ins: IrInstruction)
        requires
            old(self).instruction_arena.wf(),
        ensures
            final(self).instruction_arena.wf(),
            final(self).type_arena == old(self).type_arena,
            final(self).node_arena == old(self).node_arena,
            final(self).block_arena == old(self).block_arena,
            exists|r: Idx| {
                &&& !old(self).instruction_arena@.contains_key(r)
                &&& final(self).instruction_arena@ == old(self).instruction_arena@.insert(r, ins)
                &&& final(block).instructions@ == old(block).instructions@.push(r)
            },
    {
        let index = self.instruction_arena.insert(ins);
        block.instructions.push(index);
    }
}

/// Every arena of `b` holds at least the indices that the same arena of `a` holds.
pub open spec fn arenas_grow(a: ModuleArena, b: ModuleArena) -> bool {
    &&& forall|k: Idx| #[trigger] a.type_arena@.contains_key(k) ==> b.type_arena@.contains_key(k)
    &&& forall|k: Idx| #[trigger] a.node_arena@.contains_key(k) ==> b.node_arena@.contains_key(k)
    &&& forall|k: Idx| #[trigger] a.block_arena@.contains_key(k) ==> b.block_arena@.contains_key(k)
    &&& forall|k: Idx| #[trigger] a.instruction_arena@.contains_key(k) ==> b.instruction_arena@.contains_key(k)
}

/// A module stays consistent as it grows, where every entry it holds is either
/// kept from the consistent module `a` or has indices that resolve.
pub proof fn lemma_wf_grow(a: ModuleArena, b: ModuleArena)
    requires
        a.wf(),
        b.type_arena.wf(),
        b.node_arena.wf(),
        b.block_arena.wf(),
        b.instruction_arena.wf(),
        arenas_grow(a, b),
        forall|i: Idx| #[trigger] b.type_arena@.contains_key(i) ==>
            (a.type_arena@.contains_key(i) && a.type_arena@[i] == b.type_arena@[i]) || type_refs_resolve(b, b.type_arena@[i]),
        forall|i: Idx| #[trigger] b.instruction_arena@.contains_key(i) ==>
            (a.instruction_arena@.contains_key(i) && a.instruction_arena@[i] == b.instruction_arena@[i])
            || instruction_refs_resolve(b, b.instruction_arena@[i]),
        forall|i: Idx| #[trigger] b.block_arena@.contains_key(i) ==>
            (a.block_arena@.contains_key(i) && a.block_arena@[i] == b.block_arena@[i]) || block_refs_resolve(b, b.block_arena@[i]),
        forall|i: Idx| #[trigger] b.node_arena@.contains_key(i) ==>
            (a.node_arena@.contains_key(i) && a.node_arena@[i] == b.node_arena@[i]) || node_refs_resolve(b, b.node_arena@[i]),
    ensures
        b.wf(),
{
    reveal(ModuleArena::wf);
    assert forall|i: Idx| #[trigger] b.type_arena@.contains_key(i) implies type_refs_resolve(b, b.type_arena@[i]) by {
        if a.type_arena@.contains_key(i) && a.type_arena@[i] == b.type_arena@[i] {
            assert(type_refs_resolve(a, a.type_arena@[i]));
        }
    }
    assert forall|i: Idx| #[trigger] b.instruction_arena@.contains_key(i) implies instruction_refs_resolve(b, b.instruction_arena@[i]) by {
        if a.instruction_arena@.contains_key(i) && a.instruction_arena@[i] == b.instruction_arena@[i] {
            assert(instruction_refs_resolve(a, a.instruction_arena@[i]));
        }
    }
    assert forall|i: Idx| #[trigger] b.block_arena@.contains_key(i) implies block_refs_resolve(b, b.block_arena@[i]) by {
        if a.block_arena@.contains_key(i) && a.block_arena@[i] == b.block_arena@[i] {
            assert(block_refs_resolve(a, a.block_arena@[i]));
        }
    }
    assert forall|i: Idx| #[trigger] b.node_arena@.contains_key(i) implies node_refs_resolve(b, b.node_arena@[i]) by {
        if a.node_arena@.contains_key(i) && a.node_arena@[i] == b.node_arena@[i] {
            assert(node_refs_resolve(a, a.node_arena@[i]));
        }
    }
}

/// What a consistent module gives its readers: consistent arenas, and blocks and
/// declarations whose indices resolve.
pub proof fn lemma_wf_unfold(m: ModuleArena)
    requires
        m.wf(),
    ensures
        m.type_arena.wf(),
        m.node_arena.wf(),
        m.block_arena.wf(),
        m.instruction_arena.wf(),
        forall|i: Idx| #[trigger] m.block_arena@.contains_key(i) ==> block_refs_resolve(m, m.block_arena@[i]),
        forall|i: Idx| #[trigger] m.node_arena@.contains_key(i) ==> node_refs_resolve(m, m.node_arena@[i]),
{
    reveal(ModuleArena::wf);
}

/// The IR of one source file.
pub struct Module {
    pub path: Path,
    pub name: String,
    pub imports: Vec<Path>,
    pub module_arena: ModuleArena,
    /// The canonical `Void` type.
    pub void_index: IrTypeIndex,
    /// The canonical `Unknown` type.
    pub unknown_index: IrTypeIndex,
}

impl Module {
    /// The type under `index`, if it is live.
    pub fn _typ(&self, index: IrTypeIndex) -> (r: Option<&IrType>)
        ensures
            match r {
                Some(t) => self.module_arena.type_arena@.contains_key(index)
                    && *t == self.module_arena.type_arena@[index],
                None => !self.module_arena.type_arena@.contains_key(index),
            },
    {
        self.module_arena.type_arena.get(index)
    }
}

/// Visibility of an IR declaration.
#[derive(Clone, Copy, Debug, PartialEq, Eq, Structural)]
pub enum Access {
    Public,
    Internal,
    Generated,
}

/// The IR visibility of a source visibility.
pub open spec fn access_of(a: crate::ast::Access) -> Access {
    match a {
        crate::ast::Access::Public => Access::Public,
        crate::ast::Access::Internal => Access::Internal,
    }
}

impl Access {
    /// The IR visibility of a source visibility.
    pub fn from(ast_access: crate::ast::Access) -> (r: Self)
        ensures
            r == access_of(ast_access),
    {
        match ast_access {
            crate::ast::Access::Public => Access::Public,
            crate::ast::Access::Internal => Access::Internal,
        }
    }
}

/// Signed integer types.
#[derive(Clone, Copy, Debug, PartialEq, Eq, Structural)]
pub enum IntTy {
    ISize,
    I8,
    I16,
    I32,
    I64,
    I128,
}

/// The signed integer type a source name denotes.
pub open spec fn int_ty_named(s: Seq<char>) -> Option<IntTy> {
    if s == "IntSize"@ {
        Some(IntTy::ISize)
    } else if s == "Int8"@ {
        Some(IntTy::I8)
    } else if s == "Int16"@ {
        Some(IntTy::I16)
    } else if s == "Int32"@ {
        Some(IntTy::I32)
    } else if s == "Int64"@ {
        Some(IntTy::I64)
    } else if s == "Int128"@ {
        Some(IntTy::I128)
    } else {
        None
    }
}

/// The source name of a signed integer type.
pub open spec fn int_ty_text(t: IntTy) -> Seq<char> {
    match t {
        IntTy::ISize => "IntSize"@,
        IntTy::I8 => "Int8"@,
        IntTy::I16 => "Int16"@,
        IntTy::I32 => "Int32"@,
        IntTy::I64 => "Int64"@,
        IntTy::I128 => "Int128"@,
    }
}

impl IntTy {
    /// The signed integer type named `name`, if any.
    pub fn from(name: &str) -> (r: Option<Self>)
        ensures
            r == int_ty_named(name@),
    {
        if str_eq(name, "IntSize") {
            Some(IntTy::ISize)
        } else if str_eq(name, "Int8") {
            Some(IntTy::I8)
        } else if str_eq(name, "Int16") {
            Some(IntTy::I16)
        } else if str_eq(name, "Int32") {
            Some(IntTy::I32)
        } else if str_eq(name, "Int64") {
            Some(IntTy::I64)
        } else if str_eq(name, "Int128") {
            Some(IntTy::I128)
        } else {
            None
        }
    }

    /// Width in bits; the pointer-sized type counts as 64 bits.
    pub fn bits(&self) -> (r: u32)
        ensures
            r == match *self {
                IntTy::ISize => 64u32,
                IntTy::I8 => 8,
                IntTy::I16 => 16,
                IntTy::I32 => 32,
                IntTy::I64 => 64,
                IntTy::I128 => 128,
            },
    {
        match self {
            IntTy::ISize => 64,
            IntTy::I8 => 8,
            IntTy::I16 => 16,
            IntTy::I32 => 32,
            IntTy::I64 => 64,
            IntTy::I128 => 128,
        }
    }

    /// The type's source name.
    pub fn to_string(&self) -> (r: String)
        ensures
            r@ == int_ty_text(*self),
    {
        String::from_str(
            match self {
                IntTy::ISize => "IntSize",
                IntTy::I8 => "Int8",
                IntTy::I16 => "Int16",
                IntTy::I32 => "Int32",
                IntTy::I64 => "Int64",
                IntTy::I128 => "Int128",
            },
        )
    }
}

/// Unsigned integer types.
#[derive(Clone, Copy, Debug, PartialEq, Eq, Structural)]
pub enum UIntTy {
    USize,
    U8,
    U16,
    U32,
    U64,
    U128,
}

/// The unsigned integer type a source name denotes.
pub open spec fn uint_ty_named(s: Seq<char>) -> Option<UIntTy> {
    if s == "USize"@ {
        Some(UIntTy::USize)
    } else if s == "UInt8"@ {
        Some(UIntTy::U8)
    } else if s == "UInt16"@ {
        Some(UIntTy::U16)
    } else if s == "UInt32"@ {
        Some(UIntTy::U32)
    } else if s == "UInt64"@ {
        Some(UIntTy::U64)
    } else if s == "UInt128"@ {
        Some(UIntTy::U128)
    } else {
        None
    }
}

/// The source name of an unsigned integer type.
pub open spec fn uint_ty_text(t: UIntTy) -> Seq<char> {
    match t {
        UIntTy::USize => "USize"@,
        UIntTy::U8 => "UInt8"@,
        UIntTy::U16 => "UInt16"@,
        UIntTy::U32 => "UInt32"@,
        UIntTy::U64 => "UInt64"@,
        UIntTy::U128 => "UInt128"@,
    }
}

impl UIntTy {
    /// The unsigned integer type named `name`, if any.
    pub fn from(name: &str) -> (r: Option<Self>)
        ensures
            r == uint_ty_named(name@),
    {
        if str_eq(name, "USize") {
            Some(UIntTy::USize)
        } else if str_eq(name, "UInt8") {
            Some(UIntTy::U8)
        } else if str_eq(name, "UInt16") {
            Some(UIntTy::U16)
        } else if str_eq(name, "UInt32") {
            Some(UIntTy::U32)
        } else if str_eq(name, "UInt64") {
            Some(UIntTy::U64)
        } else if str_eq(name, "UInt128") {
            Some(UIntTy::U128)
        } else {
            None
        }
    }

    /// Width in bits; the pointer-sized type counts as 64 bits.
    pub fn bits(&self) -> (r: u32)
        ensures
            r == match *self {
                UIntTy::USize => 64u32,
                UIntTy::U8 => 8,
                UIntTy::U16 => 16,
                UIntTy::U32 => 32,
                UIntTy::U64 => 64,
                UIntTy::U128 => 128,
            },
    {
        match self {
            UIntTy::USize => 64,
            UIntTy::U8 => 8,
            UIntTy::U16 => 16,
            UIntTy::U32 => 32,
            UIntTy::U64 => 64,
            UIntTy::U128 => 128,
        }
    }

    /// The type's source name.
    pub fn to_string(&self) -> (r: String)
        ensures
            r@ == uint_ty_text(*self),
    {
        String::from_str(
            match self {
                UIntTy::USize => "USize",
                UIntTy::U8 => "UInt8",
                UIntTy::U16 => "UInt16",
                UIntTy::U32 => "UInt32",
                UIntTy::U64 => "UInt64",
                UIntTy::U128 => "UInt128",
            },
        )
    }
}

/// Floating-point types.
#[derive(Clone, Copy, Debug, PartialEq, Eq, Structural)]
pub enum FloatTy {
    F16,
    F32,
    F64,
    F128,
}

/// The floating-point type a source name denotes.
pub open spec fn float_ty_named(s: Seq<char>) -> Option<FloatTy> {
    if s == "Float16"@ {
        Some(FloatTy::F16)
    } else if s == "Float32"@ {
        Some(FloatTy::F32)
    } else if s == "Float64"@ {
        Some(FloatTy::F64)
    } else if s == "Float128"@ {
        Some(FloatTy::F128)
    } else {
        None
    }
}

/// The source name of a floating-point type.
pub open spec fn float_ty_text(t: FloatTy) -> Seq<char> {
    match t {
        FloatTy::F16 => "Float16"@,
        FloatTy::F32 => "Float32"@,
        FloatTy::F64 => "Float64"@,
        FloatTy::F128 => "Float128"@,
    }
}

impl FloatTy {
    /// The floating-point type named `name`, if any.
    pub fn from(name: &str) -> (r: Option<Self>)
        ensures
            r == float_ty_named(name@),
    {
        if str_eq(name, "Float16") {
            Some(FloatTy::F16)
        } else if str_eq(name, "Float32") {
            Some(FloatTy::F32)
        } else if str_eq(name, "Float64") {
            Some(FloatTy::F64)
        } else if str_eq(name, "Float128") {
            Some(FloatTy::F128)
        } else {
            None
        }
    }

    /// Width in bits.
    pub fn bits(&self) -> (r: u32)
        ensures
            r == match *self {
                FloatTy::F16 => 16u32,
                FloatTy::F32 => 32,
                FloatTy::F64 => 64,
                FloatTy::F128 => 128,
            },
    {
        match self {
            FloatTy::F16 => 16,
            FloatTy::F32 => 32,
            FloatTy::F64 => 64,
            FloatTy::F128 => 128,
        }
    }

    /// The type's source name.
    pub fn to_string(&self) -> (r: String)
        ensures
            r@ == float_ty_text(*self),
    {
        String::from_str(
            match self {
                FloatTy::F16 => "Float16",
                FloatTy::F32 => "Float32",
                FloatTy::F64 => "Float64",
                FloatTy::F128 => "Float128",
            },
        )
    }
}

/// A name with its IR type.
#[derive(Clone, Debug)]
pub struct IrTypedName {
    pub typ: IrTypeIndex,
    pub name: String,
}

#[derive(Clone, Debug)]
pub enum IrType {
    Bool,
    Int(IntTy),
    UInt(UIntTy),
    Float(FloatTy),
    Base(String),
    Refinement(String, IrTypeIndex, IrBlockIndex),
    Row(Vec<IrTypedName>),
    Reference(IrTypeIndex, PointerKind, ReferenceCapability),
    Optional(IrTypeIndex),
    Function(Vec<IrTypeIndex>, IrTypeIndex),
    Void,
    /// What stands where a type could not be determined.
    Unknown,
}

/// A function: its blocks in order, the entry block first.
#[derive(Clone, Debug)]
pub struct IrFunction {
    pub access: Access,
    pub name: String,
    pub params: Vec<IrTypedName>,
    pub type_params: Vec<IrTypedName>,
    pub return_type: IrTypeIndex,
    pub blocks: Vec<IrBlockIndex>,
}

#[derive(Clone, Debug)]
pub enum IrNode {
    Function(IrFunction),
    Struct { nodes: Vec<IrNodeIndex> },
    Error,
}

/// A basic block: instructions in order; a complete block ends in a branch or a
/// return.
#[derive(Clone, Debug)]
pub struct IrBlock {
    pub instructions: Vec<IrInstructionIndex>,
}

impl IrBlock {
    /// A block with no instructions.
    pub fn new() -> (r: Self)
        ensures
            r.instructions@.len() == 0,
    {
        IrBlock { instructions: Vec::new() }
    }
}

#[derive(Clone, Debug)]
pub enum IrInstruction {
    Ref(String),
    NatLiteral(i64),
    BoolLiteral(bool),
    BinOp(IrInstructionIndex, BinOpType, IrInstructionIndex),
    FieldAccessor { aggregate: IrInstructionIndex, value: IrInstructionIndex },
    FunctionCall { function: IrInstructionIndex, args: Vec<IrInstructionIndex> },
    New { typ: IrTypeIndex, allocator: IrInstructionIndex },
    Dereference { pointer: IrInstructionIndex },
    Denull { optional: IrInstructionIndex },
    Borrow { value: IrInstructionIndex },
    Branch { condition: IrInstructionIndex, true_branch: IrBlockIndex, false_branch: IrBlockIndex },
    Return { value: IrInstructionIndex },
    Unsafe { value: IrInstructionIndex },
    Error,
}

} // verus!
