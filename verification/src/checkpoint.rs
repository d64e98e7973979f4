//! A checkpoint: the tensors of all its shard files.

use crate::json::{member_trees, Json, JsonTree};
use crate::order::{
    lemma_text_less_irreflexive, lemma_text_less_transitive, place, text_less, Place,
};
use crate::st::{keyed, search, sorted_names, SafeTensors, TensorInfo, TensorView};
use vstd::prelude::*;

verus! {

/// Where a tensor is: which shard file, and what its header says of it.
#[derive(Debug, Clone)]
pub struct TensorLoc {
    pub file: usize,
    pub info: TensorInfo,
}

/// Where a tensor is, mathematically.
pub struct LocView {
    pub file: nat,
    pub info: TensorView,
}

impl TensorLoc {
    pub open spec fn view(self) -> LocView {
        LocView { file: self.file as nat, info: self.info@ }
    }
}

/// The tensors of every shard added so far, in ascending order of names.
#[derive(Debug)]
pub struct Checkpoint {
    tensors: Vec<(String, TensorLoc)>,
    files: usize,
}

/// Some entry of the table has that name.
pub open spec fn names_it<T>(table: Seq<(Seq<char>, T)>, name: Seq<char>) -> bool {
    exists|i: int| 0 <= i < table.len() && (#[trigger] table[i]).0 == name
}

impl Checkpoint {
    pub closed spec fn view(self) -> Seq<(Seq<char>, LocView)> {
        Seq::new(self.tensors@.len(), |i: int| (self.tensors@[i].0@, self.tensors@[i].1@))
    }

    pub closed spec fn spec_files(self) -> nat {
        self.files as nat
    }

    pub open spec fn wf(self) -> bool {
        sorted_names(self@)
    }

    /// No shard yet.
    pub fn new() -> (ckpt: Self)
        ensures
            ckpt.wf(),
            ckpt.spec_files() == 0,
            ckpt@.len() == 0,
    {
        Checkpoint { tensors: Vec::new(), files: 0 }
    }

    /// Adds the tensors of the next shard file. Where a name occurs again, the
    /// later shard has it.
    pub fn add_shard(&mut self, shard: &SafeTensors)
        requires
            old(self).wf(),
            shard.wf(),
            old(self).spec_files() < usize::MAX,
        ensures
            final(self).wf(),
            final(self).spec_files() == old(self).spec_files() + 1,
            forall|name: Seq<char>, loc: LocView| #[trigger]
                final(self)@.contains((name, loc)) <==> {
                    ||| loc.file == old(self).spec_files() && shard@.contains((name, loc.info))
                    ||| old(self)@.contains((name, loc)) && !names_it(shard@, name)
                },
    {
        let file: usize = self.files;
        let ghost a = self@;
        let ghost b = shard@;
        let mut out: Vec<(String, TensorLoc)> = Vec::new();
        let na: usize = self.tensors.len();
        let nb: usize = shard.len();
        let mut i: usize = 0;
        let mut j: usize = 0;
        let ghost mut view: Seq<(Seq<char>, LocView)> = Seq::empty();
        while i < na || j < nb
            invariant
                i <= na,
                j <= nb,
                na == a.len(),
                nb == b.len(),
                a == self@,
                b == shard@,
                file == self.files,
                *self == *old(self),
                sorted_names(a),
                sorted_names(b),
                view == (Seq::new(out@.len(), |k: int| (out@[k].0@, out@[k].1@))),
                sorted_names(view),
                forall|k: int, x: int|
                    #![trigger view[k], a[x]]
                    0 <= k < view.len() && i <= x < na ==> text_less(view[k].0, a[x].0),
                forall|k: int, y: int|
                    #![trigger view[k], b[y]]
                    0 <= k < view.len() && j <= y < nb ==> text_less(view[k].0, b[y].0),
                forall|k: int|
                    #![trigger view[k]]
                    0 <= k < view.len() ==> {
                        ||| view[k].1.file == file && b.contains((view[k].0, view[k].1.info))
                        ||| a.contains(view[k]) && !names_it(b, view[k].0)
                    },
                forall|y: int|
                    #![trigger b[y]]
                    0 <= y < j ==> view.contains(
                        (b[y].0, (LocView { file: file as nat, info: b[y].1 })),
                    ),
                forall|x: int|
                    #![trigger a[x]]
                    0 <= x < i ==> view.contains(a[x]) || names_it(b, a[x].0),
                j < nb ==> forall|x: int| #![trigger a[x]] 0 <= x < i ==> text_less(a[x].0, b[j as int].0),
                i < na ==> forall|y: int| #![trigger b[y]] 0 <= y < j ==> text_less(b[y].0, a[i as int].0),
            decreases na - i + nb - j,
        {
            let which: Place = if i == na {
                Place::After
            } else if j == nb {
                Place::Before
            } else {
                place(self.tensors[i].0.as_str(), shard.at(j).0)
            };
            let ghost before = view;
            if which == Place::Before {
                let t: &(String, TensorLoc) = &self.tensors[i];
                assert(a[i as int] == (t.0@, t.1@));
                out.push((t.0.clone(), TensorLoc { file: t.1.file, info: t.1.info.copy() }));
                proof {
                    view = before.push(a[i as int]);
                    assert(view =~= Seq::new(out@.len(), |k: int| (out@[k].0@, out@[k].1@)));
                    lemma_not_named(a, b, i as int, j as int);
                    lemma_pushed(before, a[i as int]);
                    assert(a.contains(a[i as int]));
                    assert(view.contains(a[i as int]));
                    if j < nb {
                        assert forall|y: int|
                            #![trigger b[y]]
                            j <= y < nb implies text_less(a[i as int].0, b[y].0) by {
                            if y > j {
                                lemma_text_less_transitive(
                                    a[i as int].0,
                                    b[j as int].0,
                                    b[y].0,
                                );
                            }
                        }
                    }
                    if i + 1 < na {
                        assert forall|y: int| #![trigger b[y]] 0 <= y < j implies text_less(
                            b[y].0,
                            a[i + 1].0,
                        ) by {
                            lemma_text_less_transitive(b[y].0, a[i as int].0, a[i + 1].0);
                        }
                    }
                }
                i += 1;
            } else {
                let t: (&str, &TensorInfo) = shard.at(j);
                out.push((t.0.to_owned(), TensorLoc { file, info: t.1.copy() }));
                proof {
                    let e = (b[j as int].0, (LocView { file: file as nat, info: b[j as int].1 }));
                    view = before.push(e);
                    assert(view =~= Seq::new(out@.len(), |k: int| (out@[k].0@, out@[k].1@)));
                    lemma_pushed(before, e);
                    assert(b.contains(b[j as int]));
                    assert(b.contains((e.0, e.1.info)));
                    assert(view.contains(e));
                    let skip = if which == Place::Same { 1int } else { 0int };
                    if which == Place::Same {
                        assert(names_it(b, a[i as int].0));
                    }
                    assert forall|x: int|
                        #![trigger a[x]]
                        i + skip <= x < na implies text_less(b[j as int].0, a[x].0) by {
                        if x > i {
                            assert(text_less(a[i as int].0, a[x].0));
                            if which == Place::After {
                                lemma_text_less_transitive(
                                    b[j as int].0,
                                    a[i as int].0,
                                    a[x].0,
                                );
                            }
                        }
                    }
                    if j + 1 < nb {
                        assert forall|x: int| #![trigger a[x]] 0 <= x < i + skip implies text_less(
                            a[x].0,
                            b[j + 1].0,
                        ) by {
                            assert(text_less(b[j as int].0, b[j + 1].0));
                            if x < i {
                                lemma_text_less_transitive(a[x].0, b[j as int].0, b[j + 1].0);
                            }
                        }
                    }
                    if i + skip < na {
                        assert forall|y: int| #![trigger b[y]] 0 <= y < j + 1 implies text_less(
                            b[y].0,
                            a[i + skip].0,
                        ) by {
                            if y < j {
                                assert(text_less(b[y].0, a[i as int].0));
                                if skip == 1 {
                                    lemma_text_less_transitive(
                                        b[y].0,
                                        a[i as int].0,
                                        a[i + 1].0,
                                    );
                                }
                            }
                        }
                    }
                }
                if which == Place::Same {
                    i += 1;
                }
                j += 1;
            }
        }
        self.tensors = out;
        self.files = file + 1;
        proof {
            assert(self@ =~= view);
            assert forall|name: Seq<char>, loc: LocView| #[trigger]
                self@.contains((name, loc)) <==> {
                    ||| loc.file == old(self).spec_files() && shard@.contains((name, loc.info))
                    ||| old(self)@.contains((name, loc)) && !names_it(shard@, name)
                } by {
                if loc.file == file && b.contains((name, loc.info)) {
                    let y = choose|y: int| 0 <= y < b.len() && b[y] == (name, loc.info);
                    assert(view.contains((b[y].0, (LocView { file: file as nat, info: b[y].1 }))));
                    assert(loc == (LocView { file: file as nat, info: b[y].1 }));
                }
                if a.contains((name, loc)) && !names_it(b, name) {
                    let x = choose|x: int| 0 <= x < a.len() && a[x] == (name, loc);
                    assert(view.contains(a[x]) || names_it(b, a[x].0));
                }
                if view.contains((name, loc)) {
                    let k = choose|k: int| 0 <= k < view.len() && view[k] == (name, loc);
                    assert(view[k] == (name, loc));
                }
            }
        }
    }

    /// How many tensors there are.
    pub fn len(&self) -> (n: usize)
        ensures
            n == self@.len(),
    {
        self.tensors.len()
    }

    /// Name and place of tensor `i`, in ascending order of names.
    pub fn at(&self, i: usize) -> (t: (&str, &TensorLoc))
        requires
            i < self@.len(),
        ensures
            (t.0@, t.1@) == self@[i as int],
    {
        let t: &(String, TensorLoc) = &self.tensors[i];
        (t.0.as_str(), &t.1)
    }

    /// The place of tensor `name`.
    pub fn find(&self, name: &str) -> (loc: Option<&TensorLoc>)
        requires
            self.wf(),
        ensures
            match loc {
                Some(loc) => self@.contains((name@, loc@)),
                None => !names_it(self@, name@),
            },
    {
        proof {
            let k = keyed(self.tensors@);
            assert forall|i: int, j: int|
                #![trigger k[i], k[j]]
                0 <= i < j < k.len() implies text_less(k[i].0, k[j].0) by {
                assert(text_less(self@[i].0, self@[j].0));
            }
        }
        match search(&self.tensors, name) {
            Ok(i) => {
                assert(self@[i as int] == (name@, self.tensors@[i as int].1@));
                Some(&self.tensors[i].1)
            },
            Err(_) => {
                assert forall|i: int| 0 <= i < self@.len() implies (#[trigger] self@[i]).0
                    != name@ by {
                    assert(self.tensors@[i].0@ != name@);
                }
                None
            },
        }
    }
}

/// Texts in strictly ascending order.
pub open spec fn sorted_texts(texts: Seq<String>) -> bool {
    forall|i: int, j: int|
        #![trigger texts[i], texts[j]]
        0 <= i < j < texts.len() ==> text_less(texts[i]@, texts[j]@)
}

/// `name` is one of the texts.
pub open spec fn lists(texts: Seq<String>, name: Seq<char>) -> bool {
    exists|i: int| 0 <= i < texts.len() && (#[trigger] texts[i])@ == name
}

/// `name` is the text of some member.
pub open spec fn is_shard(members: Seq<(Seq<char>, JsonTree)>, name: Seq<char>) -> bool {
    exists|i: int|
        0 <= i < members.len() && (#[trigger] members[i]).1.as_text() == Some(name)
}

/// The shard files that an index lists: the texts in its `weight_map`, each
/// once, in ascending order. `None` where it has no such map.
pub fn shard_names(index: &Json) -> (files: Option<Vec<String>>)
    ensures
        match (index@.member("weight_map"@), files) {
            (Some(JsonTree::Object(members)), Some(files)) => {
                &&& sorted_texts(files@)
                &&& forall|name: Seq<char>| #[trigger]
                    is_shard(members, name) <==> lists(files@, name)
            },
            (Some(JsonTree::Object(_)), None) => false,
            (_, None) => true,
            _ => false,
        },
{
    let members: &Vec<(String, Json)> = match index.get("weight_map") {
        Some(Json::Object(members)) => members,
        _ => {
            return None;
        },
    };
    let ghost all = member_trees(members@);
    let mut names: Vec<(String, ())> = Vec::new();
    let mut i: usize = 0;
    assert forall|name: Seq<char>| !#[trigger] is_shard(all.take(0), name) by {}
    while i < members.len()
        invariant
            i <= members@.len(),
            all == member_trees(members@),
            sorted_names(keyed(names@)),
            forall|name: Seq<char>| #[trigger]
                is_shard(all.take(i as int), name) <==> names_it(keyed(names@), name),
        decreases members@.len() - i,
    {
        let ghost before = names@;
        let ghost now = all.take(i + 1);
        proof {
            assert(all[i as int] == (members@[i as int].0@, members@[i as int].1@));
            assert forall|name: Seq<char>| #[trigger] is_shard(now, name) <==> (is_shard(
                all.take(i as int),
                name,
            ) || all[i as int].1.as_text() == Some(name)) by {
                if is_shard(all.take(i as int), name) {
                    let k = choose|k: int|
                        0 <= k < i && (#[trigger] all.take(i as int)[k]).1.as_text() == Some(name);
                    assert(now[k] == all.take(i as int)[k]);
                }
                if all[i as int].1.as_text() == Some(name) {
                    assert(now[i as int].1.as_text() == Some(name));
                }
                if is_shard(now, name) {
                    let k = choose|k: int|
                        0 <= k < now.len() && (#[trigger] now[k]).1.as_text() == Some(name);
                    if k < i {
                        assert(all.take(i as int)[k] == now[k]);
                    }
                }
            }
        }
        match members[i].1.as_str() {
            Some(name) => {
                match search(&names, name) {
                    Ok(at) => {
                        assert(keyed(names@)[at as int].0 == name@);
                    },
                    Err(at) => {
                        names.insert(at, (name.to_owned(), ()));
                        proof {
                            lemma_inserted_name(before, names@, at as int);
                        }
                    },
                }
            },
            None => {},
        }
        i += 1;
    }
    assert(all.take(i as int) =~= all);
    let mut files: Vec<String> = Vec::new();
    let mut k: usize = 0;
    while k < names.len()
        invariant
            k <= names@.len(),
            files@.len() == k,
            forall|j: int| 0 <= j < k ==> (#[trigger] files@[j])@ == names@[j].0@,
        decreases names@.len() - k,
    {
        files.push(names[k].0.clone());
        k += 1;
    }
    proof {
        let table = keyed(names@);
        assert forall|x: int, y: int|
            #![trigger files@[x], files@[y]]
            0 <= x < y < files@.len() implies text_less(files@[x]@, files@[y]@) by {
            assert(text_less(table[x].0, table[y].0));
        }
        assert forall|name: Seq<char>| #[trigger] is_shard(all, name) <==> lists(files@, name) by {
            assert(is_shard(all.take(i as int), name) <==> names_it(table, name));
            if names_it(table, name) {
                let x = choose|x: int| 0 <= x < table.len() && (#[trigger] table[x]).0 == name;
                assert(files@[x]@ == name);
            }
            if lists(files@, name) {
                let x = choose|x: int| 0 <= x < files@.len() && (#[trigger] files@[x])@ == name;
                assert(table[x].0 == name);
            }
        }
    }
    Some(files)
}

proof fn lemma_inserted_name(before: Seq<(String, ())>, after: Seq<(String, ())>, at: int)
    requires
        0 <= at <= before.len(),
        after == before.insert(at, after[at]),
        sorted_names(keyed(before)),
        forall|k: int| #![trigger before[k]] 0 <= k < at ==> text_less(before[k].0@, after[at].0@),
        forall|k: int|
            #![trigger before[k]]
            at <= k < before.len() ==> text_less(after[at].0@, before[k].0@),
    ensures
        sorted_names(keyed(after)),
        forall|name: Seq<char>| #[trigger]
            names_it(keyed(after), name) <==> (names_it(keyed(before), name) || name
                == after[at].0@),
{
    let a = keyed(after);
    let b = keyed(before);
    assert forall|i: int, j: int| #![trigger a[i], a[j]] 0 <= i < j < a.len() implies text_less(
        a[i].0,
        a[j].0,
    ) by {
        let x = if i < at { i } else { i - 1 };
        let y = if j < at { j } else { j - 1 };
        if i != at && j != at {
            assert(text_less(b[x].0, b[y].0));
            assert(a[i].0 == b[x].0 && a[j].0 == b[y].0);
        } else if i == at {
            assert(after[j] == before[y]);
        } else {
            assert(after[i] == before[x]);
        }
    }
    assert forall|name: Seq<char>| #[trigger] names_it(a, name) <==> (names_it(b, name) || name
        == after[at].0@) by {
        if names_it(a, name) {
            let k = choose|k: int| 0 <= k < a.len() && (#[trigger] a[k]).0 == name;
            if k != at {
                let x = if k < at { k } else { k - 1 };
                assert(b[x].0 == a[k].0);
            }
        }
        if names_it(b, name) {
            let x = choose|k: int| 0 <= k < b.len() && (#[trigger] b[k]).0 == name;
            let k = if x < at { x } else { x + 1 };
            assert(a[k].0 == b[x].0);
        }
        if name == after[at].0@ {
            assert(a[at].0 == name);
        }
    }
}

proof fn lemma_pushed(view: Seq<(Seq<char>, LocView)>, e: (Seq<char>, LocView))
    ensures
        forall|x: (Seq<char>, LocView)| #[trigger]
            view.contains(x) ==> view.push(e).contains(x),
        view.push(e).contains(e),
{
    assert(view.push(e)[view.len() as int] == e);
    assert forall|x: (Seq<char>, LocView)| #[trigger] view.contains(x) implies view.push(
        e,
    ).contains(x) by {
        let k = choose|k: int| 0 <= k < view.len() && view[k] == x;
        assert(view.push(e)[k] == x);
    }
}

proof fn lemma_not_named(
    a: Seq<(Seq<char>, LocView)>,
    b: Seq<(Seq<char>, TensorView)>,
    i: int,
    j: int,
)
    requires
        0 <= i < a.len(),
        0 <= j <= b.len(),
        sorted_names(b),
        forall|y: int| #![trigger b[y]] 0 <= y < j ==> text_less(b[y].0, a[i].0),
        j < b.len() ==> text_less(a[i].0, b[j].0),
    ensures
        !names_it(b, a[i].0),
{
    if names_it(b, a[i].0) {
        let y = choose|y: int| 0 <= y < b.len() && (#[trigger] b[y]).0 == a[i].0;
        lemma_text_less_irreflexive(a[i].0);
        if y > j {
            assert(text_less(b[j].0, b[y].0));
            lemma_text_less_transitive(a[i].0, b[j].0, b[y].0);
        }
    }
}

} // verus!
