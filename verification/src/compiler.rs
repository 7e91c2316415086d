//! The bytecode emitter: lowers a parsed module into the binary object
//! container the target virtual machine loads.  The container holds, inside
//! an outer envelope, five framed chunks in fixed order: imports, code,
//! exports, strings and atoms.

use vstd::prelude::*;
use vstd::utf8::encode_utf8;

use crate::atoms::{
    names_distinct, spec_find_name, spec_get_id, spec_intern, Atoms, lemma_find_name,
    lemma_find_name_extend, lemma_intern_distinct, lemma_intern_resolves,
};
use crate::codec::{
    arg_fits, encode_arg, encode_chunk, push_be32, spec_be32, spec_chunk, spec_encode_arg, Tag,
};
use crate::diag::{CErrV, CompileError, Loc};
use crate::parser::{
    find_param, spec_find_param, BinopKind, Expr, ExprV, Func, FuncV, Module, ModuleV, Param,
    ParamV,
};

verus! {

/// The tag bytes of the import chunk, `ImpT` in ASCII.
pub open spec fn imports_tag() -> Seq<u8> {
    seq![73u8, 109u8, 112u8, 84u8]
}

/// The tag bytes of the code chunk, `Code` in ASCII.
pub open spec fn code_tag() -> Seq<u8> {
    seq![67u8, 111u8, 100u8, 101u8]
}

/// The tag bytes of the export chunk, `ExpT` in ASCII.
pub open spec fn exports_tag() -> Seq<u8> {
    seq![69u8, 120u8, 112u8, 84u8]
}

/// The tag bytes of the string chunk, `StrT` in ASCII.
pub open spec fn strings_tag() -> Seq<u8> {
    seq![83u8, 116u8, 114u8, 84u8]
}

/// The tag bytes of the atom chunk, `AtU8` in ASCII.
pub open spec fn atoms_tag() -> Seq<u8> {
    seq![65u8, 116u8, 85u8, 56u8]
}

/// The inner container marker, `BEAM` in ASCII.
pub open spec fn beam_magic() -> Seq<u8> {
    seq![66u8, 69u8, 65u8, 77u8]
}

/// The outer envelope marker, `FOR1` in ASCII.
pub open spec fn form_magic() -> Seq<u8> {
    seq![70u8, 79u8, 82u8, 49u8]
}

fn imports_tag_bytes() -> (t: [u8; 4])
    ensures
        t@ == imports_tag(),
{
    let t = [73u8, 109u8, 112u8, 84u8];
    proof {
        assert(t@ =~= imports_tag());
    }
    t
}

fn code_tag_bytes() -> (t: [u8; 4])
    ensures
        t@ == code_tag(),
{
    let t = [67u8, 111u8, 100u8, 101u8];
    proof {
        assert(t@ =~= code_tag());
    }
    t
}

fn exports_tag_bytes() -> (t: [u8; 4])
    ensures
        t@ == exports_tag(),
{
    let t = [69u8, 120u8, 112u8, 84u8];
    proof {
        assert(t@ =~= exports_tag());
    }
    t
}

fn strings_tag_bytes() -> (t: [u8; 4])
    ensures
        t@ == strings_tag(),
{
    let t = [83u8, 116u8, 114u8, 84u8];
    proof {
        assert(t@ =~= strings_tag());
    }
    t
}

fn atoms_tag_bytes() -> (t: [u8; 4])
    ensures
        t@ == atoms_tag(),
{
    let t = [65u8, 116u8, 85u8, 56u8];
    proof {
        assert(t@ =~= atoms_tag());
    }
    t
}

/// The import table: (module-atom-id, function-atom-id, arity) triples whose
/// 0-based positions are the indices code-stream operands refer to.
pub struct Imports {
    entries: Vec<(u32, u32, u32)>,
}

/// Index of the first occurrence of `sig` among `entries`.
pub open spec fn spec_find_sig(entries: Seq<(u32, u32, u32)>, sig: (u32, u32, u32)) -> Option<int>
    decreases entries.len(),
{
    if entries.len() == 0 {
        None
    } else if entries[0] == sig {
        Some(0)
    } else {
        match spec_find_sig(entries.drop_first(), sig) {
            Some(i) => Some(i + 1),
            None => None,
        }
    }
}

/// What [`spec_find_sig`] returns: the first index holding `sig`, or nothing
/// when `sig` does not occur.
pub proof fn lemma_find_sig(entries: Seq<(u32, u32, u32)>, sig: (u32, u32, u32))
    ensures
        match spec_find_sig(entries, sig) {
            Some(i) => 0 <= i < entries.len() && entries[i] == sig && forall|j: int|
                0 <= j < i ==> entries[j] != sig,
            None => forall|j: int| 0 <= j < entries.len() ==> entries[j] != sig,
        },
    decreases entries.len(),
{
    if entries.len() > 0 && entries[0] != sig {
        let rest = entries.drop_first();
        lemma_find_sig(rest, sig);
        assert(forall|j: int| 0 <= j < rest.len() ==> rest[j] == entries[j + 1]);
        match spec_find_sig(rest, sig) {
            Some(k) => {
                assert(entries[k + 1] == sig);
                assert forall|j: int| 0 <= j < k + 1 implies entries[j] != sig by {
                    if j > 0 {
                        assert(rest[j - 1] != sig);
                    }
                }
            },
            None => {
                assert forall|j: int| 0 <= j < entries.len() implies entries[j] != sig by {
                    if j > 0 {
                        assert(rest[j - 1] != sig);
                    }
                }
            },
        }
    }
}

impl View for Imports {
    type V = Seq<(u32, u32, u32)>;

    closed spec fn view(&self) -> Seq<(u32, u32, u32)> {
        self.entries@
    }
}

impl Default for Imports {
    /// An empty import table.
    fn default() -> (r: Self)
        ensures
            r@ == Seq::<(u32, u32, u32)>::empty(),
    {
        let r = Imports { entries: Vec::new() };
        proof {
            assert(r@ =~= Seq::<(u32, u32, u32)>::empty());
        }
        r
    }
}

impl Imports {
    /// Records `sig` at the next free import index.
    pub fn insert(&mut self, sig: (u32, u32, u32))
        ensures
            final(self)@ == old(self)@.push(sig),
    {
        self.entries.push(sig);
    }

    /// The 0-based import index of `sig`, when present.
    pub fn find(&self, sig: (u32, u32, u32)) -> (r: Option<u32>)
        requires
            self@.len() <= u32::MAX,
        ensures
            match r {
                Some(i) => spec_find_sig(self@, sig) == Some(i as int),
                None => spec_find_sig(self@, sig) is None,
            },
    {
        let n = self.entries.len();
        let mut i: usize = 0;
        while i < n
            invariant
                n == self@.len() <= u32::MAX,
                0 <= i <= n,
                forall|j: int| 0 <= j < i ==> self@[j] != sig,
            decreases n - i,
        {
            let e = self.entries[i];
            if e.0 == sig.0 && e.1 == sig.1 && e.2 == sig.2 {
                proof {
                    assert(self@[i as int] == sig);
                    lemma_find_sig(self@, sig);
                    match spec_find_sig(self@, sig) {
                        Some(k) => {
                            if k < i {
                                assert(self@[k] == sig);
                            } else if i < k {
                                assert(self@[i as int] != sig);
                            }
                        },
                        None => {
                            assert(self@[i as int] != sig);
                        },
                    }
                }
                return Some(i as u32);
            }
            i += 1;
        }
        proof {
            lemma_find_sig(self@, sig);
        }
        None
    }
}

/// The ids that interning `module` and then `func` yields, paired with the
/// arity: the signature triple an import entry stores.
pub open spec fn spec_sig(
    names: Seq<Seq<char>>,
    module: Seq<char>,
    func: Seq<char>,
    arity: u32,
) -> (u32, u32, u32) {
    (
        spec_get_id(names, module) as u32,
        spec_get_id(spec_intern(names, module), func) as u32,
        arity,
    )
}

/// Interns `module` and `func` and returns the signature triple under which
/// an import of `func` from `module` at `arity` is recorded.
pub fn resolve_function_signature(atoms: &mut Atoms, module: &str, func: &str, arity: u32) -> (r:
    (u32, u32, u32))
    requires
        old(atoms)@.len() + 2 <= u32::MAX,
    ensures
        r == spec_sig(old(atoms)@, module@, func@, arity),
        final(atoms)@ == spec_intern(spec_intern(old(atoms)@, module@), func@),
        names_distinct(old(atoms)@) ==> names_distinct(final(atoms)@),
{
    proof {
        lemma_intern_resolves(old(atoms)@, module@);
    }
    let module_id = atoms.get_id(module);
    let func_id = atoms.get_id(func);
    (module_id, func_id, arity)
}

/// The bytes of the import chunk built from the table `names`: the fixed two
/// entries for the built-in binary operators, `erlang:+/2` at import index 0
/// and `erlang:-/2` at import index 1.
pub open spec fn spec_imports_chunk(names: Seq<Seq<char>>) -> Seq<u8> {
    let p = spec_sig(names, "erlang"@, "+"@, 2);
    let names2 = spec_intern(spec_intern(names, "erlang"@), "+"@);
    let m = spec_sig(names2, "erlang"@, "-"@, 2);
    spec_chunk(
        imports_tag(),
        spec_be32(2) + spec_be32(p.0 as int) + spec_be32(p.1 as int) + spec_be32(p.2 as int)
            + spec_be32(m.0 as int) + spec_be32(m.1 as int) + spec_be32(m.2 as int),
    )
}

/// The atom table after the import chunk has interned its three names.
pub open spec fn spec_imports_names(names: Seq<Seq<char>>) -> Seq<Seq<char>> {
    spec_intern(spec_intern(spec_intern(names, "erlang"@), "+"@), "-"@)
}

/// Interns the names of the two built-in operators, records their import
/// entries at indices 0 and 1, and returns the framed import chunk.
#[verifier::rlimit(50)]
pub fn encode_imports_chunk(atoms: &mut Atoms, imports: &mut Imports) -> (r: Vec<u8>)
    requires
        old(atoms)@.len() + 4 <= u32::MAX,
    ensures
        r@ == spec_imports_chunk(old(atoms)@),
        final(atoms)@ == spec_imports_names(old(atoms)@),
        final(imports)@ == old(imports)@.push(spec_sig(old(atoms)@, "erlang"@, "+"@, 2)).push(
            spec_sig(spec_intern(spec_intern(old(atoms)@, "erlang"@), "+"@), "erlang"@, "-"@, 2),
        ),
        names_distinct(old(atoms)@) ==> names_distinct(final(atoms)@),
{
    let mut chunk: Vec<u8> = Vec::new();
    let import_count: u32 = 2;
    push_be32(&mut chunk, import_count);

    let plus = resolve_function_signature(atoms, "erlang", "+", 2);
    push_be32(&mut chunk, plus.0);
    push_be32(&mut chunk, plus.1);
    push_be32(&mut chunk, plus.2);
    imports.insert(plus);

    proof {
        let names1 = spec_intern(old(atoms)@, "erlang"@);
        let names2 = spec_intern(names1, "+"@);
        lemma_intern_resolves(old(atoms)@, "erlang"@);
        lemma_find_name(names1, "erlang"@);
        assert(spec_find_name(names1, "erlang"@) is Some);
        lemma_intern_resolves(names1, "+"@);
        lemma_find_name_extend(names1, names2, "erlang"@);
        assert(spec_intern(names2, "erlang"@) == names2);
    }
    let minus = resolve_function_signature(atoms, "erlang", "-", 2);
    push_be32(&mut chunk, minus.0);
    push_be32(&mut chunk, minus.1);
    push_be32(&mut chunk, minus.2);
    imports.insert(minus);

    proof {
        assert(chunk@ =~= spec_be32(2) + spec_be32(plus.0 as int) + spec_be32(plus.1 as int)
            + spec_be32(plus.2 as int) + spec_be32(minus.0 as int) + spec_be32(minus.1 as int)
            + spec_be32(minus.2 as int));
    }
    let r = encode_chunk(imports_tag_bytes(), chunk);
    proof {
        assert(r@ == spec_imports_chunk(old(atoms)@));
    }
    r
}

/// The string chunk: always an empty payload under its tag.
pub open spec fn spec_string_chunk() -> Seq<u8> {
    spec_chunk(strings_tag(), Seq::<u8>::empty())
}

/// Frames the always-empty string table.
pub fn encode_string_chunk() -> (r: Vec<u8>)
    ensures
        r@ == spec_string_chunk(),
{
    let chunk: Vec<u8> = Vec::new();
    let r = encode_chunk(strings_tag_bytes(), chunk);
    proof {
        assert(r@ == spec_string_chunk());
    }
    r
}

/// The serialized atom entries: for each name in insertion order, one length
/// byte followed by its UTF-8 bytes.  The first name whose encoding exceeds
/// 255 bytes fails, since its length does not fit the length byte.
pub open spec fn spec_atom_entries(names: Seq<Seq<char>>) -> Result<Seq<u8>, CErrV>
    decreases names.len(),
{
    if names.len() == 0 {
        Ok(Seq::<u8>::empty())
    } else {
        let b = encode_utf8(names[0]);
        if b.len() > 255 {
            Err(CErrV::EncodingUnsupported(b.len() as int))
        } else {
            match spec_atom_entries(names.drop_first()) {
                Ok(rest) => Ok(seq![b.len() as u8] + b + rest),
                Err(e) => Err(e),
            }
        }
    }
}

/// The framed atom chunk: a big-endian count, then the entries in insertion
/// order.  Fails when the count or the payload length does not fit its
/// 32-bit field, or when a name is too long for its length byte.
pub open spec fn spec_atom_chunk(names: Seq<Seq<char>>) -> Result<Seq<u8>, CErrV> {
    if names.len() > u32::MAX {
        Err(CErrV::EncodingUnsupported(names.len() as int))
    } else {
        match spec_atom_entries(names) {
            Ok(entries) => {
                let payload = spec_be32(names.len() as int) + entries;
                if payload.len() + 11 > u32::MAX {
                    Err(CErrV::EncodingUnsupported(payload.len() as int))
                } else {
                    Ok(spec_chunk(atoms_tag(), payload))
                }
            },
            Err(e) => Err(e),
        }
    }
}

/// Serializes the atom table: big-endian count, then for each atom in
/// insertion order a one-byte length followed by its raw UTF-8 bytes.
pub fn encode_atom_chunk(atoms: &Atoms) -> (r: Result<Vec<u8>, CompileError>)
    ensures
        match spec_atom_chunk(atoms@) {
            Ok(bytes) => r matches Ok(v) && v@ == bytes,
            Err(e) => r matches Err(err) && err@ == e,
        },
{
    let n = atoms.len();
    if n > u32::MAX as usize {
        return Err(CompileError::EncodingUnsupported(n as i128));
    }
    let mut payload: Vec<u8> = Vec::new();
    push_be32(&mut payload, n as u32);
    let ghost header = spec_be32(n as int);
    proof {
        assert(atoms@.skip(0) =~= atoms@);
        assert(payload@.skip(4) =~= Seq::<u8>::empty());
        match spec_atom_entries(atoms@) {
            Ok(rest) => {
                assert(payload@.skip(4) + rest =~= rest);
            },
            Err(e) => {},
        }
        assert(payload@.subrange(0, 4) =~= header);
    }
    let mut i: usize = 0;
    while i < n
        invariant
            n == atoms@.len() <= u32::MAX,
            0 <= i <= n,
            header == spec_be32(n as int),
            payload@.len() >= 4,
            payload@.subrange(0, 4) == header,
            spec_atom_entries(atoms@) == match spec_atom_entries(atoms@.skip(i as int)) {
                Ok(rest) => Ok::<Seq<u8>, CErrV>(payload@.skip(4) + rest),
                Err(e) => Err::<Seq<u8>, CErrV>(e),
            },
        decreases n - i,
    {
        let name = atoms.name_at(i);
        let bytes = name.as_str().as_bytes();
        proof {
            assert(bytes@ == encode_utf8(atoms@[i as int]));
            assert(atoms@.skip(i as int)[0] == atoms@[i as int]);
        }
        if bytes.len() > 255 {
            proof {
                assert(spec_atom_entries(atoms@.skip(i as int)) == Err::<Seq<u8>, CErrV>(
                    CErrV::EncodingUnsupported(bytes@.len() as int),
                ));
            }
            return Err(CompileError::EncodingUnsupported(bytes.len() as i128));
        }
        let ghost entries_prev = payload@.skip(4);
        payload.push(bytes.len() as u8);
        payload.extend_from_slice(bytes);
        proof {
            let all = atoms@;
            assert(all.skip(i as int).drop_first() =~= all.skip(i as int + 1));
            assert(payload@.subrange(0, 4) =~= header);
            assert(payload@.skip(4) =~= entries_prev + seq![bytes@.len() as u8] + bytes@);
            match spec_atom_entries(all.skip(i as int + 1)) {
                Ok(rest2) => {
                    assert(spec_atom_entries(all.skip(i as int)) == Ok::<Seq<u8>, CErrV>(
                        seq![bytes@.len() as u8] + bytes@ + rest2,
                    ));
                    assert(entries_prev + (seq![bytes@.len() as u8] + bytes@ + rest2) =~= payload@.skip(
                        4,
                    ) + rest2);
                },
                Err(e) => {},
            }
        }
        i += 1;
    }
    proof {
        assert(atoms@.skip(n as int) =~= Seq::<Seq<char>>::empty());
        assert(spec_atom_entries(atoms@) == Ok::<Seq<u8>, CErrV>(payload@.skip(4)));
        assert(payload@ =~= spec_be32(n as int) + payload@.skip(4));
    }
    if payload.len() > (u32::MAX - 11) as usize {
        return Err(CompileError::EncodingUnsupported(payload.len() as i128));
    }
    let r = encode_chunk(atoms_tag_bytes(), payload);
    Ok(r)
}

/// The instructions the generator emits.
#[derive(Clone, Copy, PartialEq, Eq, Structural)]
pub enum OpCode {
    Label,
    FuncInfo,
    IntCodeEnd,
    Return,
    Move,
    GcBif2,
}

/// The numeric opcode the target machine assigns to each instruction.
pub open spec fn spec_op_byte(o: OpCode) -> u8 {
    match o {
        OpCode::Label => 1,
        OpCode::FuncInfo => 2,
        OpCode::IntCodeEnd => 3,
        OpCode::Return => 19,
        OpCode::Move => 64,
        OpCode::GcBif2 => 125,
    }
}

/// Executable counterpart of [`spec_op_byte`].
pub fn op_byte(o: OpCode) -> (b: u8)
    ensures
        b == spec_op_byte(o),
{
    match o {
        OpCode::Label => 1,
        OpCode::FuncInfo => 2,
        OpCode::IntCodeEnd => 3,
        OpCode::Return => 19,
        OpCode::Move => 64,
        OpCode::GcBif2 => 125,
    }
}

/// The import index of `erlang:+/2` under the tables as they stand.
pub open spec fn spec_add_idx(names: Seq<Seq<char>>, imps: Seq<(u32, u32, u32)>) -> int {
    match spec_find_sig(imps, spec_sig(names, "erlang"@, "+"@, 2)) {
        Some(i) => i,
        None => 0,
    }
}

/// The import index of `erlang:-/2` under the tables as they stand.
pub open spec fn spec_sub_idx(names: Seq<Seq<char>>, imps: Seq<(u32, u32, u32)>) -> int {
    match spec_find_sig(imps, spec_sig(names, "erlang"@, "-"@, 2)) {
        Some(i) => i,
        None => 0,
    }
}

/// The two built-in operators resolve: their names are interned and their
/// signatures stand in the import table.  Code generation requires this; the
/// module compiler establishes it before walking any expression.
pub open spec fn ops_resolvable(names: Seq<Seq<char>>, imps: Seq<(u32, u32, u32)>) -> bool {
    &&& spec_find_name(names, "erlang"@) is Some
    &&& spec_find_name(names, "+"@) is Some
    &&& spec_find_name(names, "-"@) is Some
    &&& spec_find_sig(imps, spec_sig(names, "erlang"@, "+"@, 2)) is Some
    &&& spec_find_sig(imps, spec_sig(names, "erlang"@, "-"@, 2)) is Some
}

/// Every import index the code stream can reference is a position inside
/// the import table as it stands at emission time.
pub proof fn lemma_import_index_in_range(names: Seq<Seq<char>>, imps: Seq<(u32, u32, u32)>)
    requires
        ops_resolvable(names, imps),
    ensures
        0 <= spec_add_idx(names, imps) < imps.len(),
        0 <= spec_sub_idx(names, imps) < imps.len(),
{
    lemma_find_sig(imps, spec_sig(names, "erlang"@, "+"@, 2));
    lemma_find_sig(imps, spec_sig(names, "erlang"@, "-"@, 2));
}

/// The bytes that lowering `e` emits, or the first failure.
///
/// The register discipline: with `a` parameters pinned in registers
/// `X0 .. X(a-1)` and `depth` scratch slots already committed, the next
/// value lands in `X(a + depth)`.  A literal or parameter reference is one
/// `Move` into that slot; a binary operation lowers both operands into the
/// two slots above the committed ones and then one `GcBif2` consumes them,
/// writing its result over the lower of the two.
pub open spec fn spec_compile_expr(
    e: ExprV,
    params: Seq<ParamV>,
    depth: int,
    add_idx: int,
    sub_idx: int,
) -> Result<Seq<u8>, CErrV>
    decreases e,
{
    let base = params.len() as int;
    match e {
        ExprV::Number(x) => if !arg_fits(x) {
            Err(CErrV::EncodingUnsupported(x))
        } else if !arg_fits(base + depth) {
            Err(CErrV::EncodingUnsupported(base + depth))
        } else {
            Ok(
                seq![spec_op_byte(OpCode::Move)] + spec_encode_arg(Tag::I, x) + spec_encode_arg(
                    Tag::X,
                    base + depth,
                ),
            )
        },
        ExprV::Var(tok) => match spec_find_param(params, tok.text) {
            None => Err(CErrV::UnknownVariable { name: tok.text, loc: tok.loc }),
            Some(p) => if !arg_fits(p.index) {
                Err(CErrV::EncodingUnsupported(p.index))
            } else if !arg_fits(base + depth) {
                Err(CErrV::EncodingUnsupported(base + depth))
            } else {
                Ok(
                    seq![spec_op_byte(OpCode::Move)] + spec_encode_arg(Tag::X, p.index)
                        + spec_encode_arg(Tag::X, base + depth),
                )
            },
        },
        ExprV::Binop { kind, lhs, rhs } => match spec_compile_expr(
            *lhs,
            params,
            depth,
            add_idx,
            sub_idx,
        ) {
            Err(e1) => Err(e1),
            Ok(b1) => match spec_compile_expr(*rhs, params, depth + 1, add_idx, sub_idx) {
                Err(e2) => Err(e2),
                Ok(b2) => {
                    let idx = if kind == BinopKind::Sum {
                        add_idx
                    } else {
                        sub_idx
                    };
                    if !arg_fits(idx) {
                        Err(CErrV::EncodingUnsupported(idx))
                    } else {
                        Ok(
                            b1 + b2 + seq![spec_op_byte(OpCode::GcBif2)] + spec_encode_arg(
                                Tag::F,
                                0,
                            ) + spec_encode_arg(Tag::U, 2) + spec_encode_arg(Tag::U, idx)
                                + spec_encode_arg(Tag::X, base + depth) + spec_encode_arg(
                                Tag::X,
                                base + depth + 1,
                            ) + spec_encode_arg(Tag::X, base + depth),
                        )
                    }
                },
            },
        },
    }
}

/// Lowering only succeeds when its destination register is encodable.
pub proof fn lemma_expr_dest_fits(
    e: ExprV,
    params: Seq<ParamV>,
    depth: int,
    add_idx: int,
    sub_idx: int,
)
    requires
        spec_compile_expr(e, params, depth, add_idx, sub_idx) is Ok,
    ensures
        arg_fits(params.len() + depth),
    decreases e,
{
    match e {
        ExprV::Number(x) => {},
        ExprV::Var(tok) => {},
        ExprV::Binop { kind, lhs, rhs } => {
            lemma_expr_dest_fits(*lhs, params, depth, add_idx, sub_idx);
        },
    }
}

/// Appends one encoded operand to the code stream, or reports the value.
fn emit_arg(code: &mut Vec<u8>, tag: Tag, n: u128) -> (r: Result<(), CompileError>)
    requires
        n <= i128::MAX as u128,
    ensures
        arg_fits(n as int) ==> r is Ok && final(code)@ == old(code)@ + spec_encode_arg(
            tag,
            n as int,
        ),
        !arg_fits(n as int) ==> (r matches Err(e) && e@ == CErrV::EncodingUnsupported(n as int))
            && final(code)@ == old(code)@,
{
    if n >= 0x800 {
        return Err(CompileError::EncodingUnsupported(n as i128));
    }
    match encode_arg(tag, n as i32) {
        Ok(b) => {
            let mut bytes = b;
            code.append(&mut bytes);
            Ok(())
        },
        Err(e) => {
            proof {
                assert(false);
            }
            Err(e)
        },
    }
}

/// Walks `expr` and appends its lowered instructions to `code`, leaving the
/// produced value in register `X(params.len() + stack_size)` and `stack_size`
/// one higher.  The atom table is read, never changed: the operator names
/// it resolves are already interned.
#[verifier::rlimit(100)]
pub fn compile_expr(
    expr: &Expr,
    atoms: &mut Atoms,
    imports: &Imports,
    code: &mut Vec<u8>,
    params: &Vec<Param>,
    stack_size: &mut usize,
) -> (r: Result<(), CompileError>)
    requires
        ops_resolvable(old(atoms)@, imports@),
        old(atoms)@.len() + 2 <= u32::MAX,
        imports@.len() <= u32::MAX,
    ensures
        final(atoms)@ == old(atoms)@,
        match spec_compile_expr(
            (*expr)@,
            params.deep_view(),
            *old(stack_size) as int,
            spec_add_idx(old(atoms)@, imports@),
            spec_sub_idx(old(atoms)@, imports@),
        ) {
            Ok(bytes) => r is Ok && final(code)@ == old(code)@ + bytes && *final(stack_size)
                == *old(stack_size) + 1,
            Err(e) => (r matches Err(err) && err@ == e) && old(code)@.is_prefix_of(final(code)@),
        },
    decreases *expr,
{
    let ghost names = atoms@;
    let ghost pv = params.deep_view();
    let ghost depth = *stack_size as int;
    let ghost ai = spec_add_idx(old(atoms)@, imports@);
    let ghost si = spec_sub_idx(old(atoms)@, imports@);
    let stack_start = params.len();
    match expr {
        Expr::Number(x) => {
            code.push(op_byte(OpCode::Move));
            match emit_arg(code, Tag::I, *x as u128) {
                Ok(()) => {},
                Err(e) => {
                    proof {
                        assert(old(code)@.is_prefix_of(code@));
                    }
                    return Err(e);
                },
            }
            match emit_arg(code, Tag::X, stack_start as u128 + *stack_size as u128) {
                Ok(()) => {},
                Err(e) => {
                    proof {
                        assert(old(code)@.is_prefix_of(code@));
                    }
                    return Err(e);
                },
            }
            *stack_size += 1;
            proof {
                assert(code@ =~= old(code)@ + (seq![spec_op_byte(OpCode::Move)] + spec_encode_arg(
                    Tag::I,
                    *x as int,
                ) + spec_encode_arg(Tag::X, pv.len() + depth)));
            }
            Ok(())
        },
        Expr::Var(tok) => {
            match find_param(params, &tok.text) {
                None => {
                    let err = CompileError::UnknownVariable {
                        name: tok.text.clone(),
                        loc: Loc {
                            file_path: tok.loc.file_path.clone(),
                            row: tok.loc.row,
                            col: tok.loc.col,
                        },
                    };
                    proof {
                        assert(old(code)@.is_prefix_of(code@));
                    }
                    Err(err)
                },
                Some(p) => {
                    let src = p.index;
                    code.push(op_byte(OpCode::Move));
                    match emit_arg(code, Tag::X, src as u128) {
                        Ok(()) => {},
                        Err(e) => {
                            proof {
                                assert(old(code)@.is_prefix_of(code@));
                            }
                            return Err(e);
                        },
                    }
                    match emit_arg(code, Tag::X, stack_start as u128 + *stack_size as u128) {
                        Ok(()) => {},
                        Err(e) => {
                            proof {
                                assert(old(code)@.is_prefix_of(code@));
                            }
                            return Err(e);
                        },
                    }
                    *stack_size += 1;
                    proof {
                        assert(code@ =~= old(code)@ + (seq![spec_op_byte(OpCode::Move)]
                            + spec_encode_arg(Tag::X, p@.index) + spec_encode_arg(
                            Tag::X,
                            pv.len() + depth,
                        )));
                    }
                    Ok(())
                },
            }
        },
        Expr::Binop(b) => {
            let ghost lhs_res = spec_compile_expr(b.lhs@, pv, depth, ai, si);
            match compile_expr(&b.lhs, atoms, imports, code, params, stack_size) {
                Ok(()) => {},
                Err(e) => {
                    return Err(e);
                },
            }
            let ghost code1 = code@;
            let ghost rhs_res = spec_compile_expr(b.rhs@, pv, depth + 1, ai, si);
            match compile_expr(&b.rhs, atoms, imports, code, params, stack_size) {
                Ok(()) => {},
                Err(e) => {
                    proof {
                        assert(old(code)@.is_prefix_of(code@));
                    }
                    return Err(e);
                },
            }
            assert(*stack_size >= 2);
            let ghost code2 = code@;
            code.push(op_byte(OpCode::GcBif2));
            match emit_arg(code, Tag::F, 0) {
                Ok(()) => {},
                Err(e) => {
                    proof {
                        assert(false);
                    }
                    return Err(e);
                },
            }
            match emit_arg(code, Tag::U, 2) {
                Ok(()) => {},
                Err(e) => {
                    proof {
                        assert(false);
                    }
                    return Err(e);
                },
            }
            proof {
                lemma_resolvable_interned(names, imports@);
            }
            let sig = match b.kind {
                BinopKind::Sum => resolve_function_signature(atoms, "erlang", "+", 2),
                BinopKind::Sub => resolve_function_signature(atoms, "erlang", "-", 2),
            };
            let bif2 = match imports.find(sig) {
                Some(i) => i,
                None => {
                    proof {
                        assert(false);
                    }
                    return Err(CompileError::EncodingUnsupported(0));
                },
            };
            match emit_arg(code, Tag::U, bif2 as u128) {
                Ok(()) => {},
                Err(e) => {
                    proof {
                        assert(old(code)@.is_prefix_of(code@));
                    }
                    return Err(e);
                },
            }
            proof {
                lemma_expr_dest_fits(b.lhs@, pv, depth, ai, si);
                lemma_expr_dest_fits(b.rhs@, pv, depth + 1, ai, si);
            }
            let arg1 = stack_start as u128 + *stack_size as u128 - 2;
            let arg2 = stack_start as u128 + *stack_size as u128 - 1;
            match emit_arg(code, Tag::X, arg1) {
                Ok(()) => {},
                Err(e) => {
                    proof {
                        assert(false);
                    }
                    return Err(e);
                },
            }
            match emit_arg(code, Tag::X, arg2) {
                Ok(()) => {},
                Err(e) => {
                    proof {
                        assert(false);
                    }
                    return Err(e);
                },
            }
            match emit_arg(code, Tag::X, arg1) {
                Ok(()) => {},
                Err(e) => {
                    proof {
                        assert(false);
                    }
                    return Err(e);
                },
            }
            *stack_size -= 1;
            proof {
                let b1 = lhs_res->Ok_0;
                let b2 = rhs_res->Ok_0;
                let idx = if b.kind == BinopKind::Sum {
                    ai
                } else {
                    si
                };
                assert(code@ =~= old(code)@ + (b1 + b2 + seq![spec_op_byte(OpCode::GcBif2)]
                    + spec_encode_arg(Tag::F, 0) + spec_encode_arg(Tag::U, 2) + spec_encode_arg(
                    Tag::U,
                    idx,
                ) + spec_encode_arg(Tag::X, pv.len() + depth) + spec_encode_arg(
                    Tag::X,
                    pv.len() + depth + 1,
                ) + spec_encode_arg(Tag::X, pv.len() + depth)));
            }
            Ok(())
        },
    }
}

/// Under [`ops_resolvable`] the three operator names are already interned,
/// so resolving a signature leaves the atom table unchanged.
pub proof fn lemma_resolvable_interned(names: Seq<Seq<char>>, imps: Seq<(u32, u32, u32)>)
    requires
        ops_resolvable(names, imps),
    ensures
        spec_intern(names, "erlang"@) == names,
        spec_intern(names, "+"@) == names,
        spec_intern(names, "-"@) == names,
{
}


/// One export entry: the exported function's name-atom id, its arity, and
/// the entry label at which its code begins.
pub struct ExportEntry {
    pub name_id: u32,
    pub arity: u32,
    pub label: u32,
}

/// Mathematical image of an [`ExportEntry`].
#[verifier::ext_equal]
pub ghost struct ExportV {
    pub name_id: int,
    pub arity: int,
    pub label: int,
}

impl View for ExportEntry {
    type V = ExportV;

    open spec fn view(&self) -> ExportV {
        ExportV { name_id: self.name_id as int, arity: self.arity as int, label: self.label as int }
    }
}

impl DeepView for ExportEntry {
    type V = ExportV;

    open spec fn deep_view(&self) -> ExportV {
        self.view()
    }
}

/// Growing the atom table leaves the operator resolution unchanged: names
/// keep their ids, so the signatures and import indices stay what they were.
pub proof fn lemma_ops_resolvable_extend(
    names: Seq<Seq<char>>,
    ext: Seq<Seq<char>>,
    imps: Seq<(u32, u32, u32)>,
)
    requires
        ops_resolvable(names, imps),
        names.is_prefix_of(ext),
    ensures
        ops_resolvable(ext, imps),
        spec_add_idx(ext, imps) == spec_add_idx(names, imps),
        spec_sub_idx(ext, imps) == spec_sub_idx(names, imps),
        spec_sig(ext, "erlang"@, "+"@, 2) == spec_sig(names, "erlang"@, "+"@, 2),
        spec_sig(ext, "erlang"@, "-"@, 2) == spec_sig(names, "erlang"@, "-"@, 2),
{
    lemma_find_name_extend(names, ext, "erlang"@);
    lemma_find_name_extend(names, ext, "+"@);
    lemma_find_name_extend(names, ext, "-"@);
    assert(spec_intern(names, "erlang"@) == names);
    assert(spec_intern(ext, "erlang"@) == ext);
}

/// The code and export entry of one function, and the atom table afterward.
///
/// Function number `fidx` (0-based) owns the labels `2*fidx + 1` (its
/// header) and `2*fidx + 2` (its entry).  Its block is: `Label` header,
/// `FuncInfo` naming the fixed module atom, the function's own atom and its
/// arity, `Label` entry, the lowered body, an epilogue moving the result
/// into `X0` when the function has parameters, and `Return`.
pub open spec fn spec_compile_func(
    f: FuncV,
    names: Seq<Seq<char>>,
    ai: int,
    si: int,
    fidx: int,
) -> Result<(Seq<u8>, Seq<Seq<char>>, ExportV), CErrV> {
    let hdr = 2 * fidx + 1;
    let entry = 2 * fidx + 2;
    let arity = f.params.len() as int;
    if !arg_fits(hdr) {
        Err(CErrV::EncodingUnsupported(hdr))
    } else {
        let bada = spec_get_id(names, "bada"@);
        let names1 = spec_intern(names, "bada"@);
        if !arg_fits(bada) {
            Err(CErrV::EncodingUnsupported(bada))
        } else {
            let nid = spec_get_id(names1, f.name.text);
            let names2 = spec_intern(names1, f.name.text);
            if !arg_fits(nid) {
                Err(CErrV::EncodingUnsupported(nid))
            } else if !arg_fits(arity) {
                Err(CErrV::EncodingUnsupported(arity))
            } else if !arg_fits(entry) {
                Err(CErrV::EncodingUnsupported(entry))
            } else {
                match spec_compile_expr(f.body, f.params, 0, ai, si) {
                    Err(e) => Err(e),
                    Ok(body) => {
                        let epilogue = if arity > 0 {
                            seq![spec_op_byte(OpCode::Move)] + spec_encode_arg(Tag::X, arity)
                                + spec_encode_arg(Tag::X, 0)
                        } else {
                            Seq::<u8>::empty()
                        };
                        Ok(
                            (
                                seq![spec_op_byte(OpCode::Label)] + spec_encode_arg(Tag::U, hdr)
                                    + seq![spec_op_byte(OpCode::FuncInfo)] + spec_encode_arg(
                                    Tag::A,
                                    bada,
                                ) + spec_encode_arg(Tag::A, nid) + spec_encode_arg(Tag::U, arity)
                                    + seq![spec_op_byte(OpCode::Label)] + spec_encode_arg(
                                    Tag::U,
                                    entry,
                                ) + body + epilogue + seq![spec_op_byte(OpCode::Return)],
                                names2,
                                ExportV { name_id: nid, arity: arity, label: entry },
                            ),
                        )
                    },
                }
            }
        }
    }
}

/// The concatenated code of the functions from `fidx` on, the atom table
/// after their names are interned, and their export entries in order.
pub open spec fn spec_compile_funcs(
    funcs: Seq<FuncV>,
    names: Seq<Seq<char>>,
    ai: int,
    si: int,
    fidx: int,
) -> Result<(Seq<u8>, Seq<Seq<char>>, Seq<ExportV>), CErrV>
    decreases funcs.len(),
{
    if funcs.len() == 0 {
        Ok((Seq::<u8>::empty(), names, Seq::<ExportV>::empty()))
    } else {
        match spec_compile_func(funcs[0], names, ai, si, fidx) {
            Err(e) => Err(e),
            Ok((b1, names1, exp)) => match spec_compile_funcs(
                funcs.drop_first(),
                names1,
                ai,
                si,
                fidx + 1,
            ) {
                Err(e) => Err(e),
                Ok((b2, names2, exps)) => Ok((b1 + b2, names2, seq![exp] + exps)),
            },
        }
    }
}

/// The framed code chunk of a whole module, the atom table afterward and
/// the export entries.  The payload head is four fixed big-endian fields —
/// the sub-header size 16, the instruction set 0, the highest opcode 169 —
/// then the label count `2n + 1` (one past the highest allocated label), the
/// function count `n`, and the code stream closed by one `IntCodeEnd`.
pub open spec fn spec_code_chunk(
    m: ModuleV,
    names: Seq<Seq<char>>,
    ai: int,
    si: int,
) -> Result<(Seq<u8>, Seq<Seq<char>>, Seq<ExportV>), CErrV> {
    match spec_compile_funcs(m.funcs, names, ai, si, 0) {
        Err(e) => Err(e),
        Ok((body, names2, exps)) => {
            let n = m.funcs.len() as int;
            let code_stream = body + seq![spec_op_byte(OpCode::IntCodeEnd)];
            let payload = spec_be32(16) + spec_be32(0) + spec_be32(169) + spec_be32(2 * n + 1)
                + spec_be32(n) + code_stream;
            if payload.len() + 11 > u32::MAX {
                Err(CErrV::EncodingUnsupported(payload.len() as int))
            } else {
                Ok((spec_chunk(code_tag(), payload), names2, exps))
            }
        },
    }
}

/// Emits one function's block: header label, `FuncInfo`, entry label, the
/// lowered body, the epilogue move when the function has parameters, and
/// `Return`; records its export entry.  Function number `fidx` owns labels
/// `label_base + 1` and `label_base + 2`.
#[verifier::rlimit(100)]
fn compile_func(
    f: &Func,
    imports: &Imports,
    atoms: &mut Atoms,
    code: &mut Vec<u8>,
    labels: &mut Vec<ExportEntry>,
    label_base: u32,
    Ghost(fidx): Ghost<int>,
) -> (r: Result<(), CompileError>)
    requires
        ops_resolvable(old(atoms)@, imports@),
        old(atoms)@.len() + 4 <= u32::MAX,
        imports@.len() <= u32::MAX,
        label_base as int == 2 * fidx,
        label_base <= 0x800,
    ensures
        old(atoms)@.is_prefix_of(final(atoms)@),
        final(atoms)@.len() <= old(atoms)@.len() + 2,
        names_distinct(old(atoms)@) ==> names_distinct(final(atoms)@),
        ops_resolvable(final(atoms)@, imports@),
        spec_add_idx(final(atoms)@, imports@) == spec_add_idx(old(atoms)@, imports@),
        spec_sub_idx(final(atoms)@, imports@) == spec_sub_idx(old(atoms)@, imports@),
        match spec_compile_func(
            f@,
            old(atoms)@,
            spec_add_idx(old(atoms)@, imports@),
            spec_sub_idx(old(atoms)@, imports@),
            fidx,
        ) {
            Ok((b1, names2, exp)) => r is Ok && final(code)@ == old(code)@ + b1 && final(atoms)@
                == names2 && final(labels).deep_view() == old(labels).deep_view().push(exp),
            Err(e) => (r matches Err(err) && err@ == e) && old(
                labels,
            ).deep_view().is_prefix_of(final(labels).deep_view()),
        },
{
    let ghost names_pre = atoms@;
    let ghost ai = spec_add_idx(old(atoms)@, imports@);
    let ghost si = spec_sub_idx(old(atoms)@, imports@);
    let ghost code_head = code@;
    let ghost labels_head = labels.deep_view();
    let ghost fv = f@;
    let ghost func_res = spec_compile_func(fv, names_pre, ai, si, fidx);

    let hdr = label_base + 1;
    code.push(op_byte(OpCode::Label));
    match emit_arg(code, Tag::U, hdr as u128) {
        Ok(()) => {},
        Err(e) => {
            return Err(e);
        },
    }
    code.push(op_byte(OpCode::FuncInfo));
    let bada_id = atoms.get_id("bada");
    proof {
        lemma_intern_resolves(names_pre, "bada"@);
        lemma_ops_resolvable_extend(names_pre, atoms@, imports@);
        if names_distinct(names_pre) {
            lemma_intern_distinct(names_pre, "bada"@);
        }
    }
    match emit_arg(code, Tag::A, bada_id as u128) {
        Ok(()) => {},
        Err(e) => {
            return Err(e);
        },
    }
    let ghost names1 = atoms@;
    let name_id = atoms.get_id(f.name.text.as_str());
    proof {
        lemma_intern_resolves(names1, fv.name.text);
        lemma_ops_resolvable_extend(names1, atoms@, imports@);
        if names_distinct(names1) {
            lemma_intern_distinct(names1, fv.name.text);
        }
    }
    match emit_arg(code, Tag::A, name_id as u128) {
        Ok(()) => {},
        Err(e) => {
            return Err(e);
        },
    }
    match emit_arg(code, Tag::U, f.params.len() as u128) {
        Ok(()) => {},
        Err(e) => {
            return Err(e);
        },
    }
    let entry = label_base + 2;
    code.push(op_byte(OpCode::Label));
    match emit_arg(code, Tag::U, entry as u128) {
        Ok(()) => {},
        Err(e) => {
            return Err(e);
        },
    }
    labels.push(ExportEntry { name_id, arity: f.params.len() as u32, label: entry });
    proof {
        assert(labels.deep_view() =~= labels_head.push(
            ExportV {
                name_id: name_id as int,
                arity: f.params.len() as int,
                label: entry as int,
            },
        ));
    }
    let mut stack_size: usize = 0;
    match compile_expr(&f.body, atoms, imports, code, &f.params, &mut stack_size) {
        Ok(()) => {},
        Err(e) => {
            return Err(e);
        },
    }
    if f.params.len() > 0 {
        code.push(op_byte(OpCode::Move));
        match emit_arg(code, Tag::X, f.params.len() as u128) {
            Ok(()) => {},
            Err(e) => {
                proof {
                    assert(false);
                }
                return Err(e);
            },
        }
        match emit_arg(code, Tag::X, 0) {
            Ok(()) => {},
            Err(e) => {
                proof {
                    assert(false);
                }
                return Err(e);
            },
        }
    }
    code.push(op_byte(OpCode::Return));
    proof {
        let arity = fv.params.len() as int;
        let names1g = spec_intern(names_pre, "bada"@);
        let names2g = spec_intern(names1g, fv.name.text);
        let bada_g = spec_get_id(names_pre, "bada"@);
        let nid_g = spec_get_id(names1g, fv.name.text);
        let body = spec_compile_expr(fv.body, fv.params, 0, ai, si)->Ok_0;
        let epilogue = if arity > 0 {
            seq![spec_op_byte(OpCode::Move)] + spec_encode_arg(Tag::X, arity) + spec_encode_arg(
                Tag::X,
                0,
            )
        } else {
            Seq::<u8>::empty()
        };
        let b1 = seq![spec_op_byte(OpCode::Label)] + spec_encode_arg(Tag::U, 2 * fidx + 1)
            + seq![spec_op_byte(OpCode::FuncInfo)] + spec_encode_arg(Tag::A, bada_g)
            + spec_encode_arg(Tag::A, nid_g) + spec_encode_arg(Tag::U, arity)
            + seq![spec_op_byte(OpCode::Label)] + spec_encode_arg(Tag::U, 2 * fidx + 2) + body
            + epilogue + seq![spec_op_byte(OpCode::Return)];
        let exp = ExportV { name_id: nid_g, arity: arity, label: 2 * fidx + 2 };
        assert(func_res == Ok::<(Seq<u8>, Seq<Seq<char>>, ExportV), CErrV>((b1, names2g, exp)));
        assert(code@ =~= code_head + b1);
    }
    Ok(())
}

/// Walks every function of `module`, appending its code and recording one
/// export entry per function in `labels`, and returns the framed code chunk.
#[verifier::rlimit(100)]
pub fn encode_code_chunk(
    module: &Module,
    imports: &Imports,
    atoms: &mut Atoms,
    labels: &mut Vec<ExportEntry>,
) -> (r: Result<Vec<u8>, CompileError>)
    requires
        ops_resolvable(old(atoms)@, imports@),
        old(atoms)@.len() + 4096 <= u32::MAX,
        imports@.len() <= u32::MAX,
    ensures
        names_distinct(old(atoms)@) ==> names_distinct(final(atoms)@),
        old(atoms)@.is_prefix_of(final(atoms)@),
        match spec_code_chunk(
            module@,
            old(atoms)@,
            spec_add_idx(old(atoms)@, imports@),
            spec_sub_idx(old(atoms)@, imports@),
        ) {
            Ok((bytes, names2, exps)) => r matches Ok(v) && v@ == bytes && final(atoms)@ == names2
                && final(labels).deep_view() == old(labels).deep_view() + exps,
            Err(e) => (r matches Err(err) && err@ == e) && old(labels).deep_view().is_prefix_of(
                final(labels).deep_view(),
            ),
        },
{
    let ghost names0 = atoms@;
    let ghost ai = spec_add_idx(old(atoms)@, imports@);
    let ghost si = spec_sub_idx(old(atoms)@, imports@);
    let ghost exps0 = labels.deep_view();
    let mut label_count: u32 = 0;
    let mut function_count: u32 = 0;
    let mut code: Vec<u8> = Vec::new();
    let n = module.funcs.len();
    let mut fi: usize = 0;
    proof {
        assert(module@.funcs.skip(0) =~= module@.funcs);
        assert(labels.deep_view().skip(exps0.len() as int) =~= Seq::<ExportV>::empty());
        match spec_compile_funcs(module@.funcs, names0, ai, si, 0) {
            Ok((b2, nn, ee)) => {
                assert(code@ + b2 =~= b2);
                assert(labels.deep_view().skip(exps0.len() as int) + ee =~= ee);
            },
            Err(e) => {},
        }
    }
    while fi < n
        invariant
            names0 == old(atoms)@,
            ai == spec_add_idx(old(atoms)@, imports@),
            si == spec_sub_idx(old(atoms)@, imports@),
            exps0 == old(labels).deep_view(),
            n == module@.funcs.len(),
            0 <= fi <= n,
            fi == 0 || 2 * fi < 0x800,
            label_count == 2 * fi,
            function_count == fi,
            ops_resolvable(atoms@, imports@),
            spec_add_idx(atoms@, imports@) == ai,
            spec_sub_idx(atoms@, imports@) == si,
            names0.is_prefix_of(atoms@),
            atoms@.len() <= names0.len() + 2 * fi,
            names0.len() + 4096 <= u32::MAX,
            imports@.len() <= u32::MAX,
            names_distinct(names0) ==> names_distinct(atoms@),
            exps0.is_prefix_of(labels.deep_view()),
            spec_compile_funcs(module@.funcs, names0, ai, si, 0) == (match spec_compile_funcs(
                module@.funcs.skip(fi as int),
                atoms@,
                ai,
                si,
                fi as int,
            ) {
                Ok((b2, nn, ee)) => Ok::<(Seq<u8>, Seq<Seq<char>>, Seq<ExportV>), CErrV>(
                    (code@ + b2, nn, labels.deep_view().skip(exps0.len() as int) + ee),
                ),
                Err(e) => Err::<(Seq<u8>, Seq<Seq<char>>, Seq<ExportV>), CErrV>(e),
            }),
        decreases n - fi,
    {
        let ghost names_pre = atoms@;
        let ghost funcs_rem = module@.funcs.skip(fi as int);
        let ghost fv = module@.funcs[fi as int];
        let ghost code_head = code@;
        let ghost labels_head = labels.deep_view();
        proof {
            assert(funcs_rem[0] == fv);
            assert(funcs_rem.drop_first() =~= module@.funcs.skip(fi as int + 1));
        }
        let f = &module.funcs[fi];
        let ghost func_res = spec_compile_func(fv, names_pre, ai, si, fi as int);
        match compile_func(
            f,
            imports,
            atoms,
            &mut code,
            labels,
            label_count,
            Ghost(fi as int),
        ) {
            Ok(()) => {},
            Err(e) => {
                return Err(e);
            },
        }
        label_count = label_count + 2;
        function_count = function_count + 1;
        fi = fi + 1;
        proof {
            assert(func_res is Ok);
            let (b1, names2g, exp) = func_res->Ok_0;
            assert(labels.deep_view() =~= labels_head.push(exp));
            assert(labels.deep_view().skip(exps0.len() as int) =~= labels_head.skip(
                exps0.len() as int,
            ).push(exp));
            let rem_new = spec_compile_funcs(
                module@.funcs.skip(fi as int),
                atoms@,
                ai,
                si,
                fi as int,
            );
            assert(spec_compile_funcs(funcs_rem, names_pre, ai, si, fi as int - 1)
                == match rem_new {
                Ok((b2, nn, ee)) => Ok::<(Seq<u8>, Seq<Seq<char>>, Seq<ExportV>), CErrV>(
                    (b1 + b2, nn, seq![exp] + ee),
                ),
                Err(e) => Err::<(Seq<u8>, Seq<Seq<char>>, Seq<ExportV>), CErrV>(e),
            });
            match rem_new {
                Ok((b2, nn, ee)) => {
                    assert(code_head + (b1 + b2) =~= code@ + b2);
                    assert(labels_head.skip(exps0.len() as int) + (seq![exp] + ee)
                        =~= labels.deep_view().skip(exps0.len() as int) + ee);
                },
                Err(e) => {},
            }
        }
    }
    code.push(op_byte(OpCode::IntCodeEnd));
    label_count = label_count + 1;
    let mut chunk: Vec<u8> = Vec::new();
    push_be32(&mut chunk, 16);
    push_be32(&mut chunk, 0);
    push_be32(&mut chunk, 169);
    push_be32(&mut chunk, label_count);
    push_be32(&mut chunk, function_count);
    chunk.append(&mut code);
    if chunk.len() > (u32::MAX - 11) as usize {
        return Err(CompileError::EncodingUnsupported(chunk.len() as i128));
    }
    let r = encode_chunk(code_tag_bytes(), chunk);
    Ok(r)
}

/// The serialized export entries: three big-endian 32-bit fields per entry.
pub open spec fn spec_export_entries(exps: Seq<ExportV>) -> Seq<u8>
    decreases exps.len(),
{
    if exps.len() == 0 {
        Seq::<u8>::empty()
    } else {
        spec_be32(exps[0].name_id) + spec_be32(exps[0].arity) + spec_be32(exps[0].label)
            + spec_export_entries(exps.drop_first())
    }
}

/// Appending an entry appends its twelve bytes.
pub proof fn lemma_export_entries_push(exps: Seq<ExportV>, x: ExportV)
    ensures
        spec_export_entries(exps.push(x)) == spec_export_entries(exps) + spec_be32(x.name_id)
            + spec_be32(x.arity) + spec_be32(x.label),
    decreases exps.len(),
{
    reveal_with_fuel(spec_export_entries, 3);
    if exps.len() == 0 {
        assert(exps.push(x)[0] == x);
        assert(exps.push(x).drop_first() =~= Seq::<ExportV>::empty());
        assert(spec_export_entries(exps.push(x)) =~= spec_export_entries(exps) + spec_be32(
            x.name_id,
        ) + spec_be32(x.arity) + spec_be32(x.label));
    } else {
        assert(exps.push(x).drop_first() =~= exps.drop_first().push(x));
        assert(exps.push(x)[0] == exps[0]);
        lemma_export_entries_push(exps.drop_first(), x);
        assert(spec_export_entries(exps.push(x)) =~= spec_export_entries(exps) + spec_be32(
            x.name_id,
        ) + spec_be32(x.arity) + spec_be32(x.label));
    }
}

/// The framed export chunk: a big-endian count, then one entry per exported
/// function.  Fails when the entries would overrun the 32-bit length field.
pub open spec fn spec_exports_chunk(exps: Seq<ExportV>) -> Result<Seq<u8>, CErrV> {
    if exps.len() > (u32::MAX - 15) / 12 {
        Err(CErrV::EncodingUnsupported(exps.len() as int))
    } else {
        Ok(spec_chunk(exports_tag(), spec_be32(exps.len() as int) + spec_export_entries(exps)))
    }
}

/// Serializes the export table: big-endian count, then for each entry the
/// name-atom id, the arity and the entry label as big-endian 32-bit fields.
pub fn encode_exports_chunk(labels: &Vec<ExportEntry>) -> (r: Result<Vec<u8>, CompileError>)
    ensures
        match spec_exports_chunk(labels.deep_view()) {
            Ok(bytes) => r matches Ok(v) && v@ == bytes,
            Err(e) => r matches Err(err) && err@ == e,
        },
{
    let n = labels.len();
    if n > ((u32::MAX - 15) / 12) as usize {
        return Err(CompileError::EncodingUnsupported(n as i128));
    }
    let mut chunk: Vec<u8> = Vec::new();
    push_be32(&mut chunk, n as u32);
    let ghost header = spec_be32(n as int);
    proof {
        assert(labels.deep_view().take(0) =~= Seq::<ExportV>::empty());
        assert(chunk@ =~= header + spec_export_entries(labels.deep_view().take(0)));
    }
    let mut i: usize = 0;
    while i < n
        invariant
            n == labels.deep_view().len(),
            n <= (u32::MAX - 15) / 12,
            0 <= i <= n,
            header == spec_be32(n as int),
            chunk@ == header + spec_export_entries(labels.deep_view().take(i as int)),
            chunk@.len() == 4 + 12 * i,
        decreases n - i,
    {
        let e = &labels[i];
        push_be32(&mut chunk, e.name_id);
        push_be32(&mut chunk, e.arity);
        push_be32(&mut chunk, e.label);
        proof {
            let dv = labels.deep_view();
            assert(dv.take(i as int).push(dv[i as int]) =~= dv.take(i as int + 1));
            lemma_export_entries_push(dv.take(i as int), dv[i as int]);
            assert(chunk@ =~= header + spec_export_entries(dv.take(i as int + 1)));
        }
        i += 1;
    }
    proof {
        assert(labels.deep_view().take(n as int) =~= labels.deep_view());
    }
    let r = encode_chunk(exports_tag_bytes(), chunk);
    Ok(r)
}

/// The atom table a fresh compilation starts from: the synthetic module name
/// interned at id 1, then the three operator names the import chunk adds.
pub open spec fn spec_beam_names() -> Seq<Seq<char>> {
    spec_imports_names(spec_intern(Seq::<Seq<char>>::empty(), "bada"@))
}

/// The import table a fresh compilation builds: `erlang:+/2` at index 0,
/// `erlang:-/2` at index 1.
pub open spec fn spec_beam_imports() -> Seq<(u32, u32, u32)> {
    let names1 = spec_intern(Seq::<Seq<char>>::empty(), "bada"@);
    Seq::<(u32, u32, u32)>::empty().push(spec_sig(names1, "erlang"@, "+"@, 2)).push(
        spec_sig(spec_intern(spec_intern(names1, "erlang"@), "+"@), "erlang"@, "-"@, 2),
    )
}

/// The bytes of a compiled module, without the outer envelope: the `BEAM`
/// marker followed by the import, code, export, string and atom chunks, in
/// that fixed order.  The atom chunk is emitted last, which is safe because
/// every id was assigned eagerly at intern time.
pub open spec fn spec_compile_beam(m: ModuleV) -> Result<Seq<u8>, CErrV> {
    let names1 = spec_intern(Seq::<Seq<char>>::empty(), "bada"@);
    let imports_bytes = spec_imports_chunk(names1);
    let names = spec_imports_names(names1);
    let imps = spec_beam_imports();
    match spec_code_chunk(m, names, spec_add_idx(names, imps), spec_sub_idx(names, imps)) {
        Err(e) => Err(e),
        Ok((code_bytes, names2, exps)) => match spec_exports_chunk(exps) {
            Err(e) => Err(e),
            Ok(exp_bytes) => match spec_atom_chunk(names2) {
                Err(e) => Err(e),
                Ok(atom_bytes) => Ok(
                    beam_magic() + imports_bytes + code_bytes + exp_bytes + spec_string_chunk()
                        + atom_bytes,
                ),
            },
        },
    }
}

/// A fresh compilation's tables resolve the two built-in operators.
pub proof fn lemma_beam_env()
    ensures
        ops_resolvable(spec_beam_names(), spec_beam_imports()),
        names_distinct(spec_beam_names()),
        spec_add_idx(spec_beam_names(), spec_beam_imports()) == 0,
        spec_sub_idx(spec_beam_names(), spec_beam_imports()) == 1,
{
    let names1 = spec_intern(Seq::<Seq<char>>::empty(), "bada"@);
    let names2 = spec_intern(names1, "erlang"@);
    let names3 = spec_intern(names2, "+"@);
    let names4 = spec_intern(names3, "-"@);
    let imps = spec_beam_imports();
    reveal_with_fuel(spec_find_name, 6);
    reveal_with_fuel(spec_find_sig, 3);
    reveal_strlit("bada");
    reveal_strlit("erlang");
    reveal_strlit("+");
    reveal_strlit("-");
    assert("bada"@.len() == 4);
    assert("erlang"@.len() == 6);
    assert("+"@.len() == 1);
    assert("-"@.len() == 1);
    assert("+"@[0] == '+');
    assert("-"@[0] == '-');
    assert("bada"@ != "erlang"@);
    assert("bada"@ != "+"@);
    assert("bada"@ != "-"@);
    assert("erlang"@ != "+"@);
    assert("erlang"@ != "-"@);
    assert("+"@ != "-"@);
    assert(names1 =~= seq!["bada"@]);
    assert(spec_find_name(names1, "erlang"@) is None);
    assert(names2 =~= seq!["bada"@, "erlang"@]);
    assert(spec_find_name(names2, "+"@) is None);
    assert(names3 =~= seq!["bada"@, "erlang"@, "+"@]);
    assert(spec_find_name(names3, "-"@) is None);
    assert(names4 =~= seq!["bada"@, "erlang"@, "+"@, "-"@]);
    assert(spec_find_name(names4, "erlang"@) == Some(1int));
    assert(spec_find_name(names4, "+"@) == Some(2int));
    assert(spec_find_name(names4, "-"@) == Some(3int));
    assert(spec_get_id(names4, "erlang"@) == 2);
    assert(spec_intern(names4, "erlang"@) == names4);
    assert(spec_get_id(names4, "+"@) == 3);
    assert(spec_get_id(names4, "-"@) == 4);
    assert(spec_sig(names4, "erlang"@, "+"@, 2) == (2u32, 3u32, 2u32));
    assert(spec_sig(names4, "erlang"@, "-"@, 2) == (2u32, 4u32, 2u32));
    assert(spec_get_id(names1, "erlang"@) == 2);
    assert(spec_get_id(names2, "+"@) == 3);
    assert(spec_sig(names1, "erlang"@, "+"@, 2) == (2u32, 3u32, 2u32));
    assert(spec_sig(names3, "erlang"@, "-"@, 2) == (2u32, 4u32, 2u32));
    assert(imps =~= seq![(2u32, 3u32, 2u32), (2u32, 4u32, 2u32)]);
    assert(spec_find_sig(imps, (2u32, 3u32, 2u32)) == Some(0int));
    assert(imps.drop_first() =~= seq![(2u32, 4u32, 2u32)]);
    assert(spec_find_sig(imps, (2u32, 4u32, 2u32)) == Some(1int));
    assert(names_distinct(names4));
}

/// Compiles `module` into the inner container: the `BEAM` marker followed by
/// the five chunks.  Fails with the first error code generation or
/// serialization meets; no partial output is handed back on failure.
#[verifier::rlimit(60)]
pub fn compile_beam_module(module: &Module) -> (r: Result<Vec<u8>, CompileError>)
    ensures
        match spec_compile_beam(module@) {
            Ok(bytes) => r matches Ok(v) && v@ == bytes,
            Err(e) => r matches Err(err) && err@ == e,
        },
{
    let mut atoms = Atoms::default();
    let mut labels: Vec<ExportEntry> = Vec::new();
    let mut imports = Imports::default();

    let _ = atoms.get_id("bada");
    proof {
        assert(atoms@ == spec_intern(Seq::<Seq<char>>::empty(), "bada"@));
        assert(names_distinct(Seq::<Seq<char>>::empty()));
        lemma_intern_distinct(Seq::<Seq<char>>::empty(), "bada"@);
    }

    let mut beam: Vec<u8> = Vec::new();
    beam.push(66);
    beam.push(69);
    beam.push(65);
    beam.push(77);
    proof {
        assert(beam@ =~= beam_magic());
    }
    let ghost names1 = atoms@;
    let mut imports_chunk = encode_imports_chunk(&mut atoms, &mut imports);
    beam.append(&mut imports_chunk);
    proof {
        assert(imports@ =~= spec_beam_imports());
        assert(atoms@ == spec_beam_names());
        lemma_beam_env();
    }
    let code_chunk = match encode_code_chunk(module, &imports, &mut atoms, &mut labels) {
        Ok(c) => c,
        Err(e) => {
            return Err(e);
        },
    };
    let mut code_chunk = code_chunk;
    beam.append(&mut code_chunk);
    let exports_chunk = match encode_exports_chunk(&labels) {
        Ok(c) => c,
        Err(e) => {
            return Err(e);
        },
    };
    proof {
        assert(labels.deep_view() =~= Seq::<ExportV>::empty() + labels.deep_view());
    }
    let mut exports_chunk = exports_chunk;
    beam.append(&mut exports_chunk);
    let mut string_chunk = encode_string_chunk();
    beam.append(&mut string_chunk);
    let atom_chunk = match encode_atom_chunk(&atoms) {
        Ok(c) => c,
        Err(e) => {
            return Err(e);
        },
    };
    let mut atom_chunk = atom_chunk;
    beam.append(&mut atom_chunk);
    proof {
        assert(beam@ =~= spec_compile_beam(module@)->Ok_0);
    }
    Ok(beam)
}

/// The complete object file: the outer envelope `FOR1`, the big-endian
/// length of the inner payload, then the payload itself.
pub open spec fn spec_compile(m: ModuleV) -> Result<Seq<u8>, CErrV> {
    match spec_compile_beam(m) {
        Err(e) => Err(e),
        Ok(beam) => if beam.len() > u32::MAX {
            Err(CErrV::EncodingUnsupported(beam.len() as int))
        } else {
            Ok(form_magic() + spec_be32(beam.len() as int) + beam)
        },
    }
}

/// The sole entry point toward a driver: compiles `module` and wraps the
/// result in the outer envelope, or reports the first error met.
#[verifier::rlimit(100)]
pub fn compile(module: &Module) -> (r: Result<Vec<u8>, CompileError>)
    ensures
        match spec_compile(module@) {
            Ok(bytes) => r matches Ok(v) && v@ == bytes,
            Err(e) => r matches Err(err) && err@ == e,
        },
{
    let beam = match compile_beam_module(module) {
        Ok(b) => b,
        Err(e) => {
            return Err(e);
        },
    };
    if beam.len() > u32::MAX as usize {
        return Err(CompileError::EncodingUnsupported(beam.len() as i128));
    }
    let mut bytes: Vec<u8> = Vec::new();
    bytes.push(70);
    bytes.push(79);
    bytes.push(82);
    bytes.push(49);
    push_be32(&mut bytes, beam.len() as u32);
    let mut payload = beam;
    bytes.append(&mut payload);
    proof {
        let bb = spec_compile_beam(module@)->Ok_0;
        assert(beam@ == bb);
        assert(bytes@ =~= form_magic() + spec_be32(bb.len() as int) + bb);
    }
    Ok(bytes)
}

/// Every lowered expression leaves its value in `X(params.len() + depth)`:
/// the bytes end with that destination operand, which both `Move` and
/// `GcBif2` place last.
pub proof fn lemma_expr_result_register(
    e: ExprV,
    params: Seq<ParamV>,
    depth: int,
    ai: int,
    si: int,
)
    requires
        spec_compile_expr(e, params, depth, ai, si) is Ok,
    ensures
        spec_encode_arg(Tag::X, params.len() + depth).is_suffix_of(
            spec_compile_expr(e, params, depth, ai, si)->Ok_0,
        ),
{
    let bytes = spec_compile_expr(e, params, depth, ai, si)->Ok_0;
    let tail = spec_encode_arg(Tag::X, params.len() + depth);
    match e {
        ExprV::Number(x) => {
            assert(bytes.subrange(bytes.len() - tail.len(), bytes.len() as int) =~= tail);
        },
        ExprV::Var(tok) => {
            assert(bytes.subrange(bytes.len() - tail.len(), bytes.len() as int) =~= tail);
        },
        ExprV::Binop { kind, lhs, rhs } => {
            assert(bytes.subrange(bytes.len() - tail.len(), bytes.len() as int) =~= tail);
        },
    }
}

/// Register discipline: every compiled function's code ends by placing its
/// result in the return register `X0` and returning.  With parameters the
/// epilogue `Move X(arity) -> X0` does it; with none the body's own last
/// instruction already writes `X0`.
pub proof fn lemma_result_in_return_register(
    f: FuncV,
    names: Seq<Seq<char>>,
    ai: int,
    si: int,
    fidx: int,
)
    requires
        spec_compile_func(f, names, ai, si, fidx) is Ok,
    ensures
        (spec_encode_arg(Tag::X, 0) + seq![spec_op_byte(OpCode::Return)]).is_suffix_of(
            spec_compile_func(f, names, ai, si, fidx)->Ok_0.0,
        ),
{
    let bytes = spec_compile_func(f, names, ai, si, fidx)->Ok_0.0;
    let tail = spec_encode_arg(Tag::X, 0) + seq![spec_op_byte(OpCode::Return)];
    let arity = f.params.len() as int;
    if arity > 0 {
        assert(bytes.subrange(bytes.len() - tail.len(), bytes.len() as int) =~= tail);
    } else {
        let body_res = spec_compile_expr(f.body, f.params, 0, ai, si);
        lemma_expr_result_register(f.body, f.params, 0, ai, si);
        let body = body_res->Ok_0;
        let dest = spec_encode_arg(Tag::X, 0);
        assert(body.subrange(body.len() - dest.len(), body.len() as int) == dest);
        assert(bytes.subrange(bytes.len() - tail.len(), bytes.len() as int) =~= tail);
    }
}

/// Exports round-trip, and the label discipline behind it.  Compiling the
/// functions from `fidx` on yields one export entry per function, in order;
/// entry `k` carries the arity of function `k`, its entry label
/// `2 * (fidx + k) + 2` — so labels are strictly increasing positive
/// integers, two per function — and a name id that resolves, in the atom
/// table the code chunk leaves behind (the one the atom chunk serializes in
/// id order), to exactly the function's source name.
pub proof fn lemma_exports_resolve(
    funcs: Seq<FuncV>,
    names: Seq<Seq<char>>,
    ai: int,
    si: int,
    fidx: int,
)
    requires
        spec_compile_funcs(funcs, names, ai, si, fidx) is Ok,
    ensures
        ({
            let (bytes, names2, exps) = spec_compile_funcs(funcs, names, ai, si, fidx)->Ok_0;
            &&& exps.len() == funcs.len()
            &&& names.is_prefix_of(names2)
            &&& forall|k: int|
                0 <= k < funcs.len() ==> {
                    &&& 1 <= (#[trigger] exps[k]).name_id <= names2.len()
                    &&& names2[exps[k].name_id - 1] == funcs[k].name.text
                    &&& exps[k].arity == funcs[k].params.len()
                    &&& exps[k].label == 2 * (fidx + k) + 2
                }
        }),
    decreases funcs.len(),
{
    let (bytes, names2, exps) = spec_compile_funcs(funcs, names, ai, si, fidx)->Ok_0;
    if funcs.len() == 0 {
        assert(names.is_prefix_of(names2));
    } else {
        let f = funcs[0];
        let names_a = spec_intern(names, "bada"@);
        let nid = spec_get_id(names_a, f.name.text);
        let names_b = spec_intern(names_a, f.name.text);
        lemma_intern_resolves(names, "bada"@);
        lemma_intern_resolves(names_a, f.name.text);
        lemma_exports_resolve(funcs.drop_first(), names_b, ai, si, fidx + 1);
        let (bytes_r, names2_r, exps_r) = spec_compile_funcs(
            funcs.drop_first(),
            names_b,
            ai,
            si,
            fidx + 1,
        )->Ok_0;
        assert(names2 == names2_r);
        assert(names_b.is_prefix_of(names2));
        assert(names.is_prefix_of(names2)) by {
            assert(names.len() <= names_b.len() <= names2.len());
            assert(forall|j: int| 0 <= j < names.len() ==> names[j] == names_b[j]);
            assert(forall|j: int| 0 <= j < names_b.len() ==> names_b[j] == names2[j]);
            assert(names =~= names2.subrange(0, names.len() as int));
        }
        let exp0 = spec_compile_func(f, names, ai, si, fidx)->Ok_0.2;
        assert(exps =~= seq![exp0] + exps_r);
        assert(exps[0] == exp0);
        assert(exp0.name_id == nid);
        assert(names_b[nid - 1] == f.name.text);
        assert(names2[nid - 1] == f.name.text) by {
            assert(forall|j: int| 0 <= j < names_b.len() ==> names_b[j] == names2[j]);
        }
        assert(forall|k: int| 1 <= k < exps.len() ==> exps[k] == exps_r[k - 1]);
        assert(forall|k: int|
            0 <= k < funcs.drop_first().len() ==> funcs.drop_first()[k] == funcs[k + 1]);
    }
}

/// Label monotonicity over a whole compiled module: one export entry per
/// function, labels strictly increasing, and the code chunk's recorded label
/// count — the fourth big-endian field of its payload, at bytes 20 to 24 of
/// the framed chunk — holding `2 * function_count + 1`, one past the highest
/// allocated label.
pub proof fn lemma_label_monotonicity(m: ModuleV, names: Seq<Seq<char>>, ai: int, si: int)
    requires
        spec_code_chunk(m, names, ai, si) is Ok,
    ensures
        ({
            let (bytes, names2, exps) = spec_code_chunk(m, names, ai, si)->Ok_0;
            &&& exps.len() == m.funcs.len()
            &&& forall|k: int| 0 <= k < exps.len() ==> (#[trigger] exps[k]).label == 2 * k + 2
            &&& forall|k: int, l: int|
                0 <= k < l < exps.len() ==> exps[k].label < exps[l].label
            &&& bytes.subrange(20, 24) == spec_be32(2 * m.funcs.len() as int + 1)
        }),
{
    let (bytes, names2, exps) = spec_code_chunk(m, names, ai, si)->Ok_0;
    lemma_exports_resolve(m.funcs, names, ai, si, 0);
    let (body, names_x, exps_x) = spec_compile_funcs(m.funcs, names, ai, si, 0)->Ok_0;
    let n = m.funcs.len() as int;
    let code_stream = body + seq![spec_op_byte(OpCode::IntCodeEnd)];
    let payload = spec_be32(16) + spec_be32(0) + spec_be32(169) + spec_be32(2 * n + 1)
        + spec_be32(n) + code_stream;
    assert(bytes == spec_chunk(code_tag(), payload));
    assert(bytes.subrange(20, 24) =~= spec_be32(2 * n + 1));
}

/// Code-stream termination: the stream the code chunk records is the
/// functions' instruction blocks followed by exactly one `IntCodeEnd`
/// sentinel — the generator emits that opcode only here, once, at the end.
pub proof fn lemma_code_stream_termination(m: ModuleV, names: Seq<Seq<char>>, ai: int, si: int)
    requires
        spec_code_chunk(m, names, ai, si) is Ok,
    ensures
        ({
            let body = spec_compile_funcs(m.funcs, names, ai, si, 0)->Ok_0.0;
            let stream = body + seq![spec_op_byte(OpCode::IntCodeEnd)];
            &&& stream.len() >= 1
            &&& stream.last() == spec_op_byte(OpCode::IntCodeEnd)
            &&& stream.drop_last() == body
        }),
{
    let body = spec_compile_funcs(m.funcs, names, ai, si, 0)->Ok_0.0;
    let stream = body + seq![spec_op_byte(OpCode::IntCodeEnd)];
    assert(stream.drop_last() =~= body);
}

} // verus!
