//! The scoped static environment: a stack of blocks, each mapping names
//! to definitions, type aliases, ADT descriptors and pattern-bound
//! variables. Lookup walks from the innermost block outward.

use vstd::prelude::*;
use crate::ast::{Adt, AdtV, SpecModel, Type, TypeV, clone_adt, clone_type};
use crate::name_map::NameMap;

verus! {

/// One frame of the environment stack.
pub struct Block {
    pub defs: NameMap<Type>,
    pub aliases: NameMap<Type>,
    pub adts: NameMap<Adt>,
    pub variables: NameMap<Type>,
}

/// Spec-level model of one block.
#[verifier::ext_equal]
pub struct BlockV {
    pub defs: Map<Seq<char>, TypeV>,
    pub aliases: Map<Seq<char>, TypeV>,
    pub adts: Map<Seq<char>, AdtV>,
    pub variables: Map<Seq<char>, TypeV>,
}

impl Block {
    /// The model of this block.
    pub open spec fn m(&self) -> BlockV {
        BlockV {
            defs: self.defs.m(),
            aliases: self.aliases.m(),
            adts: self.adts.m(),
            variables: self.variables.m(),
        }
    }

    fn new() -> (res: Self)
        ensures
            res.m() == empty_block(),
    {
        let res = Block {
            defs: NameMap::new(),
            aliases: NameMap::new(),
            adts: NameMap::new(),
            variables: NameMap::new(),
        };
        proof {
            assert(res.m() =~= empty_block());
        }
        res
    }
}

/// The model of a block with no bindings.
pub open spec fn empty_block() -> BlockV {
    BlockV {
        defs: Map::empty(),
        aliases: Map::empty(),
        adts: Map::empty(),
        variables: Map::empty(),
    }
}

/// One operation on the environment, at spec level.
pub enum EnvOp {
    AddDef(Seq<char>, TypeV),
    AddAlias(Seq<char>, TypeV),
    AddAdt(Seq<char>, AdtV),
    AddVariable(Seq<char>, TypeV),
    Enter,
    Exit,
}

/// The effect of one operation on a stack of blocks. An `Exit` of the
/// global block leaves the stack unchanged; the executable method rules
/// that case out.
pub open spec fn apply_op(m: Seq<BlockV>, op: EnvOp) -> Seq<BlockV> {
    match op {
        EnvOp::AddDef(k, v) => {
            if m.len() == 0 {
                m
            } else {
                m.update(m.len() - 1, BlockV { defs: m.last().defs.insert(k, v), ..m.last() })
            }
        },
        EnvOp::AddAlias(k, v) => {
            if m.len() == 0 {
                m
            } else {
                m.update(m.len() - 1, BlockV { aliases: m.last().aliases.insert(k, v), ..m.last() })
            }
        },
        EnvOp::AddAdt(k, v) => {
            if m.len() == 0 {
                m
            } else {
                m.update(m.len() - 1, BlockV { adts: m.last().adts.insert(k, v), ..m.last() })
            }
        },
        EnvOp::AddVariable(k, v) => {
            if m.len() == 0 {
                m
            } else {
                m.update(
                    m.len() - 1,
                    BlockV { variables: m.last().variables.insert(k, v), ..m.last() },
                )
            }
        },
        EnvOp::Enter => m.push(empty_block()),
        EnvOp::Exit => {
            if m.len() <= 1 {
                m
            } else {
                m.drop_last()
            }
        },
    }
}

/// The effect of a sequence of operations, applied left to right.
pub open spec fn apply_ops(m: Seq<BlockV>, ops: Seq<EnvOp>) -> Seq<BlockV>
    decreases ops.len(),
{
    if ops.len() == 0 {
        m
    } else {
        apply_ops(apply_op(m, ops[0]), ops.drop_first())
    }
}

/// How one operation changes the height of the stack.
pub open spec fn op_delta(op: EnvOp) -> int {
    match op {
        EnvOp::Enter => 1,
        EnvOp::Exit => -1,
        _ => 0,
    }
}

/// How a sequence of operations changes the height of the stack.
pub open spec fn ops_delta(ops: Seq<EnvOp>) -> int
    decreases ops.len(),
{
    if ops.len() == 0 {
        0
    } else {
        op_delta(ops[0]) + ops_delta(ops.drop_first())
    }
}

/// Innermost-outward lookup over a stack of maps.
pub open spec fn lookup<V>(blocks: Seq<Map<Seq<char>, V>>, key: Seq<char>) -> Option<V>
    decreases blocks.len(),
{
    if blocks.len() == 0 {
        None
    } else if blocks.last().contains_key(key) {
        Some(blocks.last()[key])
    } else {
        lookup(blocks.drop_last(), key)
    }
}

/// Blocks at `i` and beyond that do not bind `key` do not affect lookup.
pub proof fn lemma_lookup_skip<V>(blocks: Seq<Map<Seq<char>, V>>, i: int, key: Seq<char>)
    requires
        0 <= i <= blocks.len(),
        forall|j: int| i <= j < blocks.len() ==> !blocks[j].contains_key(key),
    ensures
        lookup(blocks, key) == lookup(blocks.take(i), key),
    decreases blocks.len(),
{
    if i < blocks.len() {
        lemma_lookup_skip(blocks.drop_last(), i, key);
        assert(blocks.drop_last().take(i) =~= blocks.take(i));
    } else {
        assert(blocks.take(i) =~= blocks);
    }
}

/// The definition maps of a stack of blocks, innermost last.
pub open spec fn defs_of(m: Seq<BlockV>) -> Seq<Map<Seq<char>, TypeV>> {
    Seq::new(m.len(), |i: int| m[i].defs)
}

/// The alias maps of a stack of blocks.
pub open spec fn aliases_of(m: Seq<BlockV>) -> Seq<Map<Seq<char>, TypeV>> {
    Seq::new(m.len(), |i: int| m[i].aliases)
}

/// The ADT maps of a stack of blocks.
pub open spec fn adts_of(m: Seq<BlockV>) -> Seq<Map<Seq<char>, AdtV>> {
    Seq::new(m.len(), |i: int| m[i].adts)
}

/// The variable maps of a stack of blocks.
pub open spec fn variables_of(m: Seq<BlockV>) -> Seq<Map<Seq<char>, TypeV>> {
    Seq::new(m.len(), |i: int| m[i].variables)
}

/// The scoped environment the analyzer works in.
pub struct StaticEnv {
    blocks: Vec<Block>,
}

impl StaticEnv {
    /// The model: the stack of block models, global block first.
    pub closed spec fn m(&self) -> Seq<BlockV> {
        Seq::new(self.blocks@.len(), |i: int| self.blocks@[i].m())
    }

    /// The stack is never empty.
    pub open spec fn wf(&self) -> bool {
        self.m().len() >= 1
    }

    /// An environment with a single empty global block.
    pub fn new() -> (res: Self)
        ensures
            res.m() =~= seq![empty_block()],
            res.wf(),
    {
        let mut blocks: Vec<Block> = Vec::new();
        blocks.push(Block::new());
        let res = StaticEnv { blocks };
        proof {
            assert(res.m() =~= seq![empty_block()]);
        }
        res
    }

    /// Binds a definition in the innermost block.
    pub fn add_definition(&mut self, name: &str, ty: Type)
        requires
            old(self).wf(),
        ensures
            final(self).m() == apply_op(old(self).m(), EnvOp::AddDef(name@, ty.dv())),
            final(self).wf(),
    {
        let mut b = self.blocks.pop().unwrap();
        b.defs.insert(name, ty);
        self.blocks.push(b);
        proof {
            assert(self.m() =~= apply_op(old(self).m(), EnvOp::AddDef(name@, ty.dv())));
        }
    }

    /// Binds a type alias in the innermost block.
    pub fn add_alias(&mut self, name: &str, ty: Type)
        requires
            old(self).wf(),
        ensures
            final(self).m() == apply_op(old(self).m(), EnvOp::AddAlias(name@, ty.dv())),
            final(self).wf(),
    {
        let mut b = self.blocks.pop().unwrap();
        b.aliases.insert(name, ty);
        self.blocks.push(b);
        proof {
            assert(self.m() =~= apply_op(old(self).m(), EnvOp::AddAlias(name@, ty.dv())));
        }
    }

    /// Binds an ADT descriptor in the innermost block.
    pub fn add_adt(&mut self, name: &str, adt: Adt)
        requires
            old(self).wf(),
        ensures
            final(self).m() == apply_op(old(self).m(), EnvOp::AddAdt(name@, adt.dv())),
            final(self).wf(),
    {
        let mut b = self.blocks.pop().unwrap();
        b.adts.insert(name, adt);
        self.blocks.push(b);
        proof {
            assert(self.m() =~= apply_op(old(self).m(), EnvOp::AddAdt(name@, adt.dv())));
        }
    }

    /// Binds a pattern variable in the innermost block.
    pub fn add_variable(&mut self, name: &str, ty: Type)
        requires
            old(self).wf(),
        ensures
            final(self).m() == apply_op(old(self).m(), EnvOp::AddVariable(name@, ty.dv())),
            final(self).wf(),
    {
        let mut b = self.blocks.pop().unwrap();
        b.variables.insert(name, ty);
        self.blocks.push(b);
        proof {
            assert(self.m() =~= apply_op(old(self).m(), EnvOp::AddVariable(name@, ty.dv())));
        }
    }

    /// Pushes a fresh block.
    pub fn enter_block(&mut self)
        requires
            old(self).wf(),
        ensures
            final(self).m() == apply_op(old(self).m(), EnvOp::Enter),
            final(self).wf(),
    {
        self.blocks.push(Block::new());
        proof {
            assert(self.m() =~= apply_op(old(self).m(), EnvOp::Enter));
        }
    }

    /// Pops the innermost block. The global block cannot be popped.
    pub fn exit_block(&mut self)
        requires
            old(self).wf(),
            old(self).m().len() >= 2,
        ensures
            final(self).m() == apply_op(old(self).m(), EnvOp::Exit),
            final(self).wf(),
    {
        self.blocks.pop().unwrap();
        proof {
            assert(self.m() =~= apply_op(old(self).m(), EnvOp::Exit));
        }
    }

    /// Number of blocks on the stack.
    pub fn block_count(&self) -> (n: usize)
        ensures
            n == self.m().len(),
    {
        self.blocks.len()
    }

    /// Looks a definition up, innermost block first.
    pub fn find_definition(&self, name: &str) -> (res: Option<Type>)
        ensures
            match res {
                Some(t) => lookup(defs_of(self.m()), name@) == Some(t.dv()),
                None => lookup(defs_of(self.m()), name@) is None,
            },
    {
        let n = self.blocks.len();
        let mut i = n;
        while i > 0
            invariant
                i <= n,
                n == self.blocks@.len(),
                forall|j: int| i <= j < n ==> !defs_of(self.m())[j].contains_key(name@),
            decreases i,
        {
            i = i - 1;
            match self.blocks[i].defs.get(name) {
                Some(t) => {
                    let res = clone_type(t);
                    proof {
                        lemma_lookup_skip(defs_of(self.m()), i + 1, name@);
                        assert(defs_of(self.m()).take(i + 1).last() == self.m()[i as int].defs);
                    }
                    return Some(res);
                },
                None => {},
            }
        }
        proof {
            lemma_lookup_skip(defs_of(self.m()), 0, name@);
            assert(defs_of(self.m()).take(0) =~= Seq::<Map<Seq<char>, TypeV>>::empty());
        }
        None
    }

    /// Looks a type alias up, innermost block first.
    pub fn find_alias(&self, name: &str) -> (res: Option<Type>)
        ensures
            match res {
                Some(t) => lookup(aliases_of(self.m()), name@) == Some(t.dv()),
                None => lookup(aliases_of(self.m()), name@) is None,
            },
    {
        let n = self.blocks.len();
        let mut i = n;
        while i > 0
            invariant
                i <= n,
                n == self.blocks@.len(),
                forall|j: int| i <= j < n ==> !aliases_of(self.m())[j].contains_key(name@),
            decreases i,
        {
            i = i - 1;
            match self.blocks[i].aliases.get(name) {
                Some(t) => {
                    let res = clone_type(t);
                    proof {
                        lemma_lookup_skip(aliases_of(self.m()), i + 1, name@);
                        assert(aliases_of(self.m()).take(i + 1).last() == self.m()[i as int].aliases);
                    }
                    return Some(res);
                },
                None => {},
            }
        }
        proof {
            lemma_lookup_skip(aliases_of(self.m()), 0, name@);
            assert(aliases_of(self.m()).take(0) =~= Seq::<Map<Seq<char>, TypeV>>::empty());
        }
        None
    }

    /// Looks an ADT descriptor up, innermost block first.
    pub fn find_adt(&self, name: &str) -> (res: Option<Adt>)
        ensures
            match res {
                Some(a) => lookup(adts_of(self.m()), name@) == Some(a.dv()),
                None => lookup(adts_of(self.m()), name@) is None,
            },
    {
        let n = self.blocks.len();
        let mut i = n;
        while i > 0
            invariant
                i <= n,
                n == self.blocks@.len(),
                forall|j: int| i <= j < n ==> !adts_of(self.m())[j].contains_key(name@),
            decreases i,
        {
            i = i - 1;
            match self.blocks[i].adts.get(name) {
                Some(a) => {
                    let res = clone_adt(a);
                    proof {
                        lemma_lookup_skip(adts_of(self.m()), i + 1, name@);
                        assert(adts_of(self.m()).take(i + 1).last() == self.m()[i as int].adts);
                    }
                    return Some(res);
                },
                None => {},
            }
        }
        proof {
            lemma_lookup_skip(adts_of(self.m()), 0, name@);
            assert(adts_of(self.m()).take(0) =~= Seq::<Map<Seq<char>, AdtV>>::empty());
        }
        None
    }

    /// Looks a pattern variable up, innermost block first.
    pub fn find_variable(&self, name: &str) -> (res: Option<Type>)
        ensures
            match res {
                Some(t) => lookup(variables_of(self.m()), name@) == Some(t.dv()),
                None => lookup(variables_of(self.m()), name@) is None,
            },
    {
        let n = self.blocks.len();
        let mut i = n;
        while i > 0
            invariant
                i <= n,
                n == self.blocks@.len(),
                forall|j: int| i <= j < n ==> !variables_of(self.m())[j].contains_key(name@),
            decreases i,
        {
            i = i - 1;
            match self.blocks[i].variables.get(name) {
                Some(t) => {
                    let res = clone_type(t);
                    proof {
                        lemma_lookup_skip(variables_of(self.m()), i + 1, name@);
                        assert(variables_of(self.m()).take(i + 1).last() == self.m()[
                            i as int
                        ].variables);
                    }
                    return Some(res);
                },
                None => {},
            }
        }
        proof {
            lemma_lookup_skip(variables_of(self.m()), 0, name@);
            assert(variables_of(self.m()).take(0) =~= Seq::<Map<Seq<char>, TypeV>>::empty());
        }
        None
    }
}

/// Operations that never reach below `inner`'s bottom leave `outer`
/// untouched and change the height by the operations' total delta.
proof fn lemma_ops_keep_outer(outer: Seq<BlockV>, inner: Seq<BlockV>, ops: Seq<EnvOp>)
    requires
        inner.len() >= 1,
        forall|k: int|
            0 <= k <= ops.len() ==> inner.len() as int + ops_delta(#[trigger] ops.take(k)) >= 1,
    ensures
        apply_ops(outer + inner, ops).len() == outer.len() + inner.len() + ops_delta(ops),
        apply_ops(outer + inner, ops).take(outer.len() as int) =~= outer,
        apply_ops(outer + inner, ops) =~= outer + apply_ops(outer + inner, ops).skip(
            outer.len() as int,
        ),
    decreases ops.len(),
{
    if ops.len() == 0 {
        assert(ops.take(0) =~= ops);
        assert((outer + inner).take(outer.len() as int) =~= outer);
        assert(outer + inner =~= outer + (outer + inner).skip(outer.len() as int));
    } else {
        let op = ops[0];
        let rest = ops.drop_first();
        assert forall|k: int| 0 <= k <= rest.len() implies inner_len_after(inner, op)
            + ops_delta(#[trigger] rest.take(k)) >= 1 by {
            assert(ops.take(k + 1).drop_first() =~= rest.take(k));
            assert(ops_delta(ops.take(k + 1)) == op_delta(op) + ops_delta(rest.take(k)));
            assert(inner.len() as int + ops_delta(ops.take(k + 1)) >= 1);
        }
        assert(inner.len() as int + op_delta(op) >= 1) by {
            assert(ops.take(1).drop_first() =~= Seq::<EnvOp>::empty());
            assert(ops.take(1)[0] == op);
            assert(ops_delta(Seq::<EnvOp>::empty()) == 0);
            assert(ops_delta(ops.take(1)) == op_delta(op) + ops_delta(ops.take(1).drop_first()));
            assert(inner.len() as int + ops_delta(ops.take(1)) >= 1);
        }
        match op {
            EnvOp::Enter => {
                assert(apply_op(outer + inner, op) =~= outer + inner.push(empty_block()));
                lemma_ops_keep_outer(outer, inner.push(empty_block()), rest);
            },
            EnvOp::Exit => {
                assert(inner.len() >= 2);
                assert(apply_op(outer + inner, op) =~= outer + inner.drop_last());
                lemma_ops_keep_outer(outer, inner.drop_last(), rest);
            },
            EnvOp::AddDef(k, v) => {
                let b = BlockV { defs: inner.last().defs.insert(k, v), ..inner.last() };
                assert((outer + inner).last() == inner.last());
                assert(apply_op(outer + inner, op) =~= outer + inner.update(inner.len() - 1, b));
                lemma_ops_keep_outer(outer, inner.update(inner.len() - 1, b), rest);
            },
            EnvOp::AddAlias(k, v) => {
                let b = BlockV { aliases: inner.last().aliases.insert(k, v), ..inner.last() };
                assert((outer + inner).last() == inner.last());
                assert(apply_op(outer + inner, op) =~= outer + inner.update(inner.len() - 1, b));
                lemma_ops_keep_outer(outer, inner.update(inner.len() - 1, b), rest);
            },
            EnvOp::AddAdt(k, v) => {
                let b = BlockV { adts: inner.last().adts.insert(k, v), ..inner.last() };
                assert((outer + inner).last() == inner.last());
                assert(apply_op(outer + inner, op) =~= outer + inner.update(inner.len() - 1, b));
                lemma_ops_keep_outer(outer, inner.update(inner.len() - 1, b), rest);
            },
            EnvOp::AddVariable(k, v) => {
                let b = BlockV { variables: inner.last().variables.insert(k, v), ..inner.last() };
                assert((outer + inner).last() == inner.last());
                assert(apply_op(outer + inner, op) =~= outer + inner.update(inner.len() - 1, b));
                lemma_ops_keep_outer(outer, inner.update(inner.len() - 1, b), rest);
            },
        }
    }
}

/// Height of `inner` after one operation.
spec fn inner_len_after(inner: Seq<BlockV>, op: EnvOp) -> int {
    inner.len() as int + op_delta(op)
}

/// Entering a block, running any well-nested sequence of operations,
/// and exiting restores every block of the original environment, and
/// with it every outer binding's visibility, unchanged.
///
/// Well-nested means that the operations never pop the entered block
/// (every prefix has at least as many entries as exits) and leave the
/// stack at the entered depth (the total delta is zero).
pub proof fn lemma_env_block_nesting(env: Seq<BlockV>, ops: Seq<EnvOp>)
    requires
        env.len() >= 1,
        forall|k: int| 0 <= k <= ops.len() ==> ops_delta(#[trigger] ops.take(k)) >= 0,
        ops_delta(ops) == 0,
    ensures
        apply_op(apply_ops(apply_op(env, EnvOp::Enter), ops), EnvOp::Exit) =~= env,
{
    let entered = apply_op(env, EnvOp::Enter);
    assert(entered =~= env + seq![empty_block()]);
    lemma_ops_keep_outer(env, seq![empty_block()], ops);
    let r = apply_ops(env + seq![empty_block()], ops);
    assert(r.len() == env.len() + 1);
    assert(r.drop_last() =~= r.take(env.len() as int));
}

} // verus!
