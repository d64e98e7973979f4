//! A model whose shards were added one after the other holds the tensors of all
//! of them.

use crate::gguf::{shard_view, with_infos, Gguf, GgufError, GgufView, ShardView};
use vstd::prelude::*;

verus! {

/// The model `g[i + 1]` is `g[i]` with the shard whose header is `heads[i]`
/// added, and `g[0]` is a new one.
pub open spec fn added(g: Seq<Gguf>, heads: Seq<Seq<u8>>, shards: Seq<ShardView>) -> bool {
    &&& g.len() == heads.len() + 1
    &&& shards.len() == heads.len()
    &&& g[0].spec_files() == 0
    &&& g[0].tensors() == Map::<Seq<char>, GgufView>::empty()
    &&& forall|i: int|
        #![trigger heads[i]]
        0 <= i < heads.len() ==> {
            &&& shard_view(heads[i], g[i].spec_files() == 0) == Ok::<ShardView, GgufError>(
                shards[i],
            )
            &&& g[i + 1].spec_files() == g[i].spec_files() + 1
            &&& g[i + 1].meta() == (if g[i].spec_files() == 0 {
                shards[i].meta
            } else {
                g[i].meta()
            })
            &&& g[i + 1].tensors() == with_infos(
                g[i].tensors(),
                shards[i],
                g[i].spec_files(),
                shards[i].infos.len(),
            )
        }
}

/// Tensor `j` of a shard, as it lies in file `file`.
pub open spec fn placed_tensor(shard: ShardView, file: nat, j: int) -> GgufView {
    GgufView {
        file,
        dims: shard.infos[j].dims,
        ty: shard.infos[j].ty,
        abs_offset: shard.data_start + shard.infos[j].offset,
    }
}

/// Tensor `j` of shard `i` is the last of its name in the first `n` shards.
pub open spec fn last_of_name(shards: Seq<ShardView>, n: int, i: int, j: int) -> bool {
    let name = shards[i].infos[j].name;
    &&& 0 <= i < n
    &&& 0 <= j < shards[i].infos.len()
    &&& forall|y: int|
        #![trigger shards[i].infos[y]]
        j < y < shards[i].infos.len() ==> shards[i].infos[y].name != name
    &&& forall|x: int, y: int|
        #![trigger shards[x].infos[y]]
        i < x < n && 0 <= y < shards[x].infos.len() ==> shards[x].infos[y].name != name
}

/// A name is that of a tensor in the first `n` shards.
pub open spec fn names_tensor(shards: Seq<ShardView>, n: int, name: Seq<char>) -> bool {
    exists|i: int, j: int|
        #![trigger shards[i].infos[j]]
        0 <= i < n && 0 <= j < shards[i].infos.len() && shards[i].infos[j].name == name
}

proof fn lemma_with_infos(
    tensors: Map<Seq<char>, GgufView>,
    shard: ShardView,
    file: nat,
    n: nat,
    name: Seq<char>,
)
    requires
        n <= shard.infos.len(),
    ensures
        ({
            let after = with_infos(tensors, shard, file, n);
            let named = exists|y: int|
                #![trigger shard.infos[y]]
                0 <= y < n && shard.infos[y].name == name;
            &&& after.contains_key(name) <==> tensors.contains_key(name) || named
            &&& !named ==> after.contains_key(name) == tensors.contains_key(name) && after[name]
                == tensors[name]
            &&& forall|j: int|
                #![trigger shard.infos[j]]
                0 <= j < n && shard.infos[j].name == name && (forall|y: int|
                    #![trigger shard.infos[y]]
                    j < y < n ==> shard.infos[y].name != name) ==> after[name] == placed_tensor(
                    shard,
                    file,
                    j,
                )
        }),
    decreases n,
{
    if n > 0 {
        lemma_with_infos(tensors, shard, file, (n - 1) as nat, name);
        let before = with_infos(tensors, shard, file, (n - 1) as nat);
        let last = shard.infos[n - 1];
        if last.name != name {
            let named = exists|y: int|
                #![trigger shard.infos[y]]
                0 <= y < n && shard.infos[y].name == name;
            if named {
                let y = choose|y: int|
                    #![trigger shard.infos[y]]
                    0 <= y < n && shard.infos[y].name == name;
                assert(y < n - 1);
            }
        }
    }
}

proof fn lemma_files(g: Seq<Gguf>, heads: Seq<Seq<u8>>, shards: Seq<ShardView>, n: int)
    requires
        added(g, heads, shards),
        0 <= n <= heads.len(),
    ensures
        g[n].spec_files() == n,
    decreases n,
{
    if n > 0 {
        lemma_files(g, heads, shards, n - 1);
        assert(heads[n - 1] == heads[n - 1]);
        assert(g[n - 1 + 1].spec_files() == g[n - 1].spec_files() + 1);
    }
}

proof fn lemma_names(
    g: Seq<Gguf>,
    heads: Seq<Seq<u8>>,
    shards: Seq<ShardView>,
    n: int,
    name: Seq<char>,
)
    requires
        added(g, heads, shards),
        0 <= n <= heads.len(),
    ensures
        g[n].tensors().contains_key(name) <==> names_tensor(shards, n, name),
    decreases n,
{
    if n > 0 {
        let shard = shards[n - 1];
        lemma_names(g, heads, shards, n - 1, name);
        lemma_files(g, heads, shards, n - 1);
        assert(heads[n - 1] == heads[n - 1]);
        lemma_with_infos(
            g[n - 1].tensors(),
            shard,
            (n - 1) as nat,
            shard.infos.len(),
            name,
        );
        if names_tensor(shards, n, name) && !names_tensor(shards, n - 1, name) {
            let (i, j) = choose|i: int, j: int|
                #![trigger shards[i].infos[j]]
                0 <= i < n && 0 <= j < shards[i].infos.len() && shards[i].infos[j].name == name;
            assert(i == n - 1);
            assert(shard.infos[j].name == name);
        }
        if g[n].tensors().contains_key(name) && !g[n - 1].tensors().contains_key(name) {
            let y = choose|y: int|
                #![trigger shard.infos[y]]
                0 <= y < shard.infos.len() && shard.infos[y].name == name;
            assert(shards[n - 1].infos[y].name == name);
        }
    }
}

proof fn lemma_held(
    g: Seq<Gguf>,
    heads: Seq<Seq<u8>>,
    shards: Seq<ShardView>,
    n: int,
    i: int,
    j: int,
)
    requires
        added(g, heads, shards),
        0 <= n <= heads.len(),
        last_of_name(shards, n, i, j),
    ensures
        g[n].tensors().contains_key(shards[i].infos[j].name),
        g[n].tensors()[shards[i].infos[j].name] == placed_tensor(shards[i], i as nat, j),
    decreases n,
{
    let name = shards[i].infos[j].name;
    let shard = shards[n - 1];
    lemma_files(g, heads, shards, n - 1);
    assert(heads[n - 1] == heads[n - 1]);
    lemma_with_infos(g[n - 1].tensors(), shard, (n - 1) as nat, shard.infos.len(), name);
    if i < n - 1 {
        lemma_held(g, heads, shards, n - 1, i, j);
        assert forall|y: int| #![trigger shard.infos[y]] 0 <= y < shard.infos.len() implies shard.infos[y].name
            != name by {
            assert(shards[n - 1].infos[y].name != name);
        }
    } else {
        assert(shard.infos[j].name == name);
    }
}

/// A model holds the tensors of every shard that was added to it and no others:
/// each with the shard that it lies in and its place behind that shard's
/// header. Where a name occurs again, the later tensor has it. The metadata is
/// that of the first shard.
pub proof fn law_every_shard_is_held(
    g: Seq<Gguf>,
    heads: Seq<Seq<u8>>,
    shards: Seq<ShardView>,
)
    requires
        added(g, heads, shards),
        heads.len() > 0,
    ensures
        g.last().spec_files() == heads.len(),
        g.last().meta() == shards[0].meta,
        forall|name: Seq<char>| #[trigger]
            g.last().tensors().contains_key(name) <==> names_tensor(
                shards,
                heads.len() as int,
                name,
            ),
        forall|i: int, j: int| #[trigger]
            last_of_name(shards, heads.len() as int, i, j) ==> g.last().tensors()[shards[i].infos[j].name]
                == placed_tensor(shards[i], i as nat, j),
{
    let n = heads.len() as int;
    lemma_files(g, heads, shards, n);
    lemma_meta(g, heads, shards, n);
    assert forall|name: Seq<char>| #[trigger]
        g.last().tensors().contains_key(name) <==> names_tensor(shards, n, name) by {
        lemma_names(g, heads, shards, n, name);
    }
    assert forall|i: int, j: int| #[trigger] last_of_name(shards, n, i, j) implies g.last().tensors()[shards[i].infos[j].name]
        == placed_tensor(shards[i], i as nat, j) by {
        lemma_held(g, heads, shards, n, i, j);
    }
}

proof fn lemma_meta(g: Seq<Gguf>, heads: Seq<Seq<u8>>, shards: Seq<ShardView>, n: int)
    requires
        added(g, heads, shards),
        0 < n <= heads.len(),
    ensures
        g[n].meta() == shards[0].meta,
    decreases n,
{
    lemma_files(g, heads, shards, n - 1);
    assert(heads[n - 1] == heads[n - 1]);
    assert(g[n - 1 + 1].meta() == (if g[n - 1].spec_files() == 0 {
        shards[n - 1].meta
    } else {
        g[n - 1].meta()
    }));
    if n > 1 {
        lemma_meta(g, heads, shards, n - 1);
    }
}

} // verus!
