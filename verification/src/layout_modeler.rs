//! Flat-to-nested reconstruction: one forward pass over the ordered section
//! list, an arena of nodes addressed by index, and an explicit stack of open
//! ancestors seeded with a synthetic root at level 0.

use vstd::prelude::*;

use crate::layout::{
    count_headings, count_tables, items_view, lemma_items_view_push, DocumentMetadata,
    DocumentTree, ItemV, NodeTV, SectionItem, SectionNode,
};
use crate::{secs_view, DocumentSection, ElementType, SecV};

verus! {

// ---------------------------------------------------------------------------
// The arena model.
// ---------------------------------------------------------------------------

#[derive(Debug)]
pub struct TempNode {
    pub id: i32,
    pub title: String,
    pub level: u8,
    pub xml_path: String,
    pub children: Vec<TempItem>,
}

#[derive(Debug)]
pub enum TempItem {
    Sub(usize),
    Content(DocumentSection),
}

#[verifier::ext_equal]
pub struct TempV {
    pub id: int,
    pub title: Seq<char>,
    pub level: int,
    pub xml_path: Seq<char>,
    pub children: Seq<TempItemV>,
}

#[verifier::ext_equal]
pub enum TempItemV {
    Sub(int),
    Content(SecV),
}

pub open spec fn temp_item_view(t: TempItem) -> TempItemV {
    match t {
        TempItem::Sub(j) => TempItemV::Sub(j as int),
        TempItem::Content(s) => TempItemV::Content(s@),
    }
}

pub open spec fn temp_view(t: TempNode) -> TempV {
    TempV {
        id: t.id as int,
        title: t.title@,
        level: t.level as int,
        xml_path: t.xml_path@,
        children: Seq::new(t.children@.len(), |i: int| temp_item_view(t.children@[i])),
    }
}

pub open spec fn arena_view(v: Seq<TempNode>) -> Seq<TempV> {
    Seq::new(v.len(), |i: int| temp_view(v[i]))
}

pub open spec fn stack_view(v: Seq<usize>) -> Seq<int> {
    Seq::new(v.len(), |i: int| v[i] as int)
}

/// Builder state: the arena and the open-ancestor stack.
#[verifier::ext_equal]
pub struct BState {
    pub arena: Seq<TempV>,
    pub stack: Seq<int>,
}

/// The initial state: a synthetic root at level 0, open.
pub open spec fn init_state() -> BState {
    BState {
        arena: seq![
            TempV {
                id: 0,
                title: "Root"@,
                level: 0,
                xml_path: "document.xml#root"@,
                children: Seq::empty(),
            },
        ],
        stack: seq![0int],
    }
}

/// Close open sections while the top is at or above the new level, never
/// closing the root.
pub open spec fn popped_stack(arena: Seq<TempV>, stack: Seq<int>, lvl: int) -> Seq<int>
    decreases stack.len(),
{
    if stack.len() <= 1 {
        stack
    } else if arena[stack.last()].level < lvl {
        stack
    } else {
        popped_stack(arena, stack.drop_last(), lvl)
    }
}

pub open spec fn attach(arena: Seq<TempV>, parent: int, item: TempItemV) -> Seq<TempV> {
    arena.update(
        parent,
        TempV { children: arena[parent].children.push(item), ..arena[parent] },
    )
}

/// One step of the builder: a heading closes levels and opens itself; any
/// other section becomes a content leaf under the current top.
pub open spec fn step(st: BState, s: SecV) -> BState {
    match s.element_type {
        ElementType::Heading(lvl) => {
            let stack1 = popped_stack(st.arena, st.stack, lvl as int);
            let parent = stack1.last();
            let new_idx = st.arena.len() as int;
            let node = TempV {
                id: s.id,
                title: s.raw_text,
                level: lvl as int,
                xml_path: s.xml_path,
                children: Seq::empty(),
            };
            BState {
                arena: attach(st.arena, parent, TempItemV::Sub(new_idx)).push(node),
                stack: stack1.push(new_idx),
            }
        },
        _ => {
            let parent = st.stack.last();
            BState { arena: attach(st.arena, parent, TempItemV::Content(s)), stack: st.stack }
        },
    }
}

/// The builder fold over the ordered section list.
pub open spec fn build_fold(secs: Seq<SecV>, st: BState) -> BState
    decreases secs.len(),
{
    if secs.len() == 0 {
        st
    } else {
        build_fold(secs.drop_first(), step(st, secs[0]))
    }
}

// ---------------------------------------------------------------------------
// Conversion of the arena into the nested tree.
// ---------------------------------------------------------------------------

/// The nested node at arena index `idx`. Subsection references that do not
/// point forward are skipped, which the builder never produces.
pub open spec fn conv(arena: Seq<TempV>, idx: int) -> NodeTV
    decreases arena.len() - idx, 0nat,
{
    if 0 <= idx < arena.len() {
        let t = arena[idx];
        NodeTV {
            id: t.id,
            title: t.title,
            level: t.level,
            xml_path: t.xml_path,
            children: conv_items(arena, idx, t.children),
        }
    } else {
        NodeTV { id: 0, title: Seq::empty(), level: 0, xml_path: Seq::empty(), children: Seq::empty() }
    }
}

pub open spec fn conv_items(arena: Seq<TempV>, floor: int, items: Seq<TempItemV>) -> Seq<ItemV>
    decreases arena.len() - floor - 1, items.len() + 1,
{
    if items.len() == 0 {
        Seq::empty()
    } else {
        (match items[0] {
            TempItemV::Sub(j) => {
                if floor < j < arena.len() {
                    seq![ItemV::Subsection(conv(arena, j))]
                } else {
                    Seq::empty()
                }
            },
            TempItemV::Content(s) => seq![ItemV::Content(s)],
        }) + conv_items(arena, floor, items.drop_first())
    }
}

/// The whole tree an ordered section list builds.
pub open spec fn build_tree_spec(secs: Seq<SecV>) -> NodeTV {
    conv(build_fold(secs, init_state()).arena, 0)
}

// ---------------------------------------------------------------------------
// Well-formedness carried by the builder.
// ---------------------------------------------------------------------------

/// Subsection references always point forward and in range; stack indices
/// are in range, the stack is nonempty and starts at the root.
pub open spec fn wf_arena(arena: Seq<TempV>) -> bool {
    forall|i: int, k: int|
        0 <= i < arena.len() && 0 <= k < arena[i].children.len() && (#[trigger] arena[i].children[k])
            is Sub ==> i < arena[i].children[k]->Sub_0 < arena.len()
}

pub open spec fn wf_state(st: BState) -> bool {
    &&& wf_arena(st.arena)
    &&& st.arena.len() >= 1
    &&& st.stack.len() >= 1
    &&& st.stack[0] == 0
    &&& forall|k: int| 0 <= k < st.stack.len() ==> 0 <= #[trigger] st.stack[k] < st.arena.len()
}

proof fn lemma_popped_prefix(arena: Seq<TempV>, stack: Seq<int>, lvl: int)
    requires
        stack.len() >= 1,
    ensures
        ({
            let s1 = popped_stack(arena, stack, lvl);
            &&& 1 <= s1.len() <= stack.len()
            &&& s1 == stack.take(s1.len() as int)
            &&& forall|k: int| s1.len() <= k < stack.len() ==> arena[#[trigger] stack[k]].level
                >= lvl
            &&& (s1.len() > 1 ==> arena[s1.last()].level < lvl)
        }),
    decreases stack.len(),
{
    let s1 = popped_stack(arena, stack, lvl);
    if stack.len() <= 1 {
        assert(s1 =~= stack.take(s1.len() as int));
    } else if arena[stack.last()].level < lvl {
        assert(s1 =~= stack.take(s1.len() as int));
    } else {
        lemma_popped_prefix(arena, stack.drop_last(), lvl);
        let s2 = popped_stack(arena, stack.drop_last(), lvl);
        assert(s1 == s2);
        assert(stack.drop_last().take(s2.len() as int) =~= stack.take(s2.len() as int));
        assert(forall|k: int|
            s1.len() <= k < stack.len() - 1 ==> arena[#[trigger] stack.drop_last()[k]].level
                >= lvl);
        assert(forall|k: int|
            s1.len() <= k < stack.len() - 1 ==> stack.drop_last()[k] == stack[k]);
        assert(arena[stack.last()].level >= lvl);
    }
}

proof fn lemma_step_wf(st: BState, s: SecV)
    requires
        wf_state(st),
    ensures
        wf_state(step(st, s)),
{
    match s.element_type {
        ElementType::Heading(lvl) => {
            lemma_popped_prefix(st.arena, st.stack, lvl as int);
            let stack1 = popped_stack(st.arena, st.stack, lvl as int);
            let parent = stack1.last();
            assert(stack1[stack1.len() - 1] == st.stack[stack1.len() - 1]);
            assert(0 <= parent < st.arena.len());
            let st2 = step(st, s);
            assert(st2.arena.len() == st.arena.len() + 1);
            assert forall|i: int, k: int|
                0 <= i < st2.arena.len() && 0 <= k < st2.arena[i].children.len() && (
                #[trigger] st2.arena[i].children[k]) is Sub implies i
                < st2.arena[i].children[k]->Sub_0 < st2.arena.len() by {
                if i < st.arena.len() {
                    if i == parent {
                        if k < st.arena[i].children.len() {
                            assert(st2.arena[i].children[k] == st.arena[i].children[k]);
                        } else {
                            assert(st2.arena[i].children[k] == TempItemV::Sub(
                                st.arena.len() as int,
                            ));
                        }
                    } else {
                        assert(st2.arena[i] == st.arena[i]);
                    }
                } else {
                    assert(st2.arena[i].children.len() == 0);
                }
            }
            assert(stack1.push(st.arena.len() as int)[0] == stack1[0]);
            assert(stack1[0] == st.stack[0]);
        },
        _ => {
            let parent = st.stack.last();
            let st2 = step(st, s);
            assert forall|i: int, k: int|
                0 <= i < st2.arena.len() && 0 <= k < st2.arena[i].children.len() && (
                #[trigger] st2.arena[i].children[k]) is Sub implies i
                < st2.arena[i].children[k]->Sub_0 < st2.arena.len() by {
                if i == parent {
                    if k < st.arena[i].children.len() {
                        assert(st2.arena[i].children[k] == st.arena[i].children[k]);
                    }
                } else {
                    assert(st2.arena[i] == st.arena[i]);
                }
            }
        },
    }
}

// ---------------------------------------------------------------------------
// Stated law of the builder: a heading closes every open section at or
// above its level and becomes a child of the nearest remaining ancestor
// with a smaller level, the root when none remains.
// ---------------------------------------------------------------------------

/// When a heading at level `lvl` arrives, every open ancestor at level at
/// or above `lvl` is closed, the remaining open ancestors are kept in
/// order, and the new node is attached to the deepest remaining one, which
/// is either the root or has level strictly below `lvl`.
pub proof fn lemma_heading_attachment(st: BState, s: SecV, lvl: u8)
    requires
        wf_state(st),
        s.element_type == ElementType::Heading(lvl),
    ensures
        ({
            let kept = popped_stack(st.arena, st.stack, lvl as int);
            let st2 = step(st, s);
            // the kept ancestors are a prefix of the open stack
            &&& kept == st.stack.take(kept.len() as int)
            // everything closed was at level at or above the new one
            &&& forall|k: int| kept.len() <= k < st.stack.len()
                ==> st.arena[#[trigger] st.stack[k]].level >= lvl as int
            // the parent is the nearest ancestor below the new level, or the root
            &&& (kept.len() > 1 ==> st.arena[kept.last()].level < lvl as int)
            &&& (kept.len() == 1 ==> kept.last() == 0)
            // the new node is appended and attached exactly there
            &&& st2.arena[kept.last()].children == st.arena[kept.last()].children.push(
                TempItemV::Sub(st.arena.len() as int),
            )
            &&& st2.arena.last().id == s.id && st2.arena.last().level == lvl as int
                && st2.arena.last().title == s.raw_text
            // the new node becomes the deepest open section
            &&& st2.stack == kept.push(st.arena.len() as int)
        }),
{
    lemma_popped_prefix(st.arena, st.stack, lvl as int);
    let kept = popped_stack(st.arena, st.stack, lvl as int);
    assert(kept[kept.len() - 1] == st.stack[kept.len() - 1]);
    if kept.len() == 1 {
        assert(kept.last() == st.stack[0]);
    }
    assert(0 <= kept.last() < st.arena.len());
}

// ---------------------------------------------------------------------------
// The builder.
// ---------------------------------------------------------------------------

/// The outline builder.
pub struct LayoutModeler;

impl LayoutModeler {
    /// Reconstruct the outline tree from the ordered section list and
    /// gather the aggregate counters, in one forward pass.
    pub fn build_tree(elements: Vec<DocumentSection>) -> (r: DocumentTree)
        ensures
            r.root@ == build_tree_spec(secs_view(elements@)),
            r.metadata.total_elements == elements@.len(),
            r.metadata.heading_count == count_headings(secs_view(elements@)),
            r.metadata.table_count == count_tables(secs_view(elements@)),
    {
        let ghost secsv = secs_view(elements@);
        let mut arena: Vec<TempNode> = Vec::new();
        arena.push(
            TempNode {
                id: 0,
                title: String::from_str("Root"),
                level: 0,
                xml_path: String::from_str("document.xml#root"),
                children: Vec::new(),
            },
        );
        let mut stack: Vec<usize> = Vec::new();
        stack.push(0);
        let mut heading_count: usize = 0;
        let mut table_count: usize = 0;
        proof {
            assert(arena_view(arena@) =~~= init_state().arena);
            assert(stack_view(stack@) =~= init_state().stack);
            assert(BState { arena: arena_view(arena@), stack: stack_view(stack@) } =~~=
                init_state());
            assert(secsv.skip(0) == secsv);
            assert(secsv.take(0) =~= Seq::<SecV>::empty());
        }
        let n = elements.len();
        let mut i: usize = 0;
        while i < n
            invariant
                0 <= i <= n,
                n == elements@.len(),
                secsv == secs_view(elements@),
                secsv.len() == n,
                build_fold(secsv, init_state()) == build_fold(
                    secsv.skip(i as int),
                    BState { arena: arena_view(arena@), stack: stack_view(stack@) },
                ),
                wf_state(BState { arena: arena_view(arena@), stack: stack_view(stack@) }),
                arena@.len() == arena_view(arena@).len(),
                stack@.len() == stack_view(stack@).len(),
                heading_count == count_headings(secsv.take(i as int)),
                table_count == count_tables(secsv.take(i as int)),
                heading_count <= i && table_count <= i,
            decreases n - i,
        {
            let ghost st0 = BState { arena: arena_view(arena@), stack: stack_view(stack@) };
            let ghost sv = secsv[i as int];
            proof {
                assert(secsv.skip(i as int)[0] == secsv[i as int]);
                assert(secsv.skip(i as int).drop_first() =~= secsv.skip(i + 1));
                assert(build_fold(secsv.skip(i as int), st0) == build_fold(
                    secsv.skip(i + 1),
                    step(st0, sv),
                ));
                lemma_step_wf(st0, sv);
                lemma_count_take_step(secsv, i as int);
            }
            let element = &elements[i];
            let is_heading = match element.element_type {
                ElementType::Heading(_) => true,
                _ => false,
            };
            if is_heading {
                heading_count += 1;
            } else {
                match element.element_type {
                    ElementType::Table => {
                        table_count += 1;
                    },
                    _ => {},
                }
            }
            match element.element_type {
                ElementType::Heading(new_level) => {
                    // close open sections at or above the new level
                    loop
                        invariant
                            stack@.len() >= 1,
                            arena_view(arena@) == st0.arena,
                            st0.arena.len() == arena@.len(),
                            forall|k: int|
                                0 <= k < stack@.len() ==> 0 <= #[trigger] stack_view(stack@)[k]
                                    < st0.arena.len(),
                            stack@[0] == 0,
                            popped_stack(st0.arena, st0.stack, new_level as int) == popped_stack(
                                st0.arena,
                                stack_view(stack@),
                                new_level as int,
                            ),
                        ensures
                            stack@.len() >= 1,
                            arena_view(arena@) == st0.arena,
                            forall|k: int|
                                0 <= k < stack@.len() ==> 0 <= #[trigger] stack_view(stack@)[k]
                                    < st0.arena.len(),
                            stack@[0] == 0,
                            stack_view(stack@) == popped_stack(
                                st0.arena,
                                st0.stack,
                                new_level as int,
                            ),
                        decreases stack@.len(),
                    {
                        proof {
                            let sv_now = stack_view(stack@);
                            assert(sv_now.last() == stack@[stack@.len() - 1] as int);
                            assert(sv_now.drop_last() =~= stack_view(stack@.drop_last()));
                        }
                        if stack.len() <= 1 {
                            break;
                        }
                        let t = stack[stack.len() - 1];
                        if arena[t].level < new_level {
                            proof {
                                let sv_now = stack_view(stack@);
                                assert(st0.arena[sv_now.last()].level == arena@[t as int].level);
                            }
                            break;
                        }
                        stack.pop();
                    }
                    let new_idx = arena.len();
                    let parent = stack[stack.len() - 1];
                    let node = TempNode {
                        id: element.id,
                        title: element.raw_text.clone(),
                        level: new_level,
                        xml_path: element.xml_path.clone(),
                        children: Vec::new(),
                    };
                    let ghost arena_before = arena_view(arena@);
                    let pnode = node_at_mut(&mut arena, parent);
                    pnode.children.push(TempItem::Sub(new_idx));
                    proof {
                        assert(temp_view(arena@[parent as int]).children =~~= arena_before[
                            parent as int
                        ].children.push(TempItemV::Sub(new_idx as int)));
                        assert(arena_view(arena@) =~~= attach(
                            arena_before,
                            parent as int,
                            TempItemV::Sub(new_idx as int),
                        ));
                    }
                    arena.push(node);
                    stack.push(new_idx);
                    proof {
                        assert(arena_view(arena@) =~~= step(st0, sv).arena);
                        assert(stack_view(stack@) =~= step(st0, sv).stack);
                    }
                },
                _ => {
                    let parent = stack[stack.len() - 1];
                    let content = element.clone();
                    let ghost arena_before = arena_view(arena@);
                    let pnode = node_at_mut(&mut arena, parent);
                    pnode.children.push(TempItem::Content(content));
                    proof {
                        assert(stack_view(stack@).last() == stack@[stack@.len() - 1] as int);
                        assert(temp_view(arena@[parent as int]).children =~~= arena_before[
                            parent as int
                        ].children.push(TempItemV::Content(sv)));
                        assert(arena_view(arena@) =~~= attach(
                            arena_before,
                            parent as int,
                            TempItemV::Content(sv),
                        ));
                        assert(arena_view(arena@) =~~= step(st0, sv).arena);
                        assert(stack_view(stack@) =~= step(st0, sv).stack);
                    }
                },
            }
            i += 1;
        }
        proof {
            assert(secsv.skip(n as int).len() == 0);
            assert(secsv.take(n as int) =~= secsv);
        }
        let root = Self::convert_to_final(&arena, 0);
        let metadata = DocumentMetadata {
            total_elements: n,
            heading_count,
            table_count,
        };
        DocumentTree { root, metadata }
    }

    /// Convert one arena node and, recursively, its forward-pointing
    /// subsections into the nested ownership form.
    pub fn convert_to_final(arena: &Vec<TempNode>, idx: usize) -> (r: SectionNode)
        requires
            wf_arena(arena_view(arena@)),
            idx < arena@.len(),
        ensures
            r@ == conv(arena_view(arena@), idx as int),
        decreases arena@.len() - idx,
    {
        let ghost av = arena_view(arena@);
        let t = &arena[idx];
        let ghost tv = temp_view(arena@[idx as int]);
        let mut children: Vec<SectionItem> = Vec::new();
        let n = t.children.len();
        proof {
            assert(av[idx as int] == tv);
            assert(tv.children.skip(0) == tv.children);
            assert(items_view(children@) + conv_items(av, idx as int, tv.children.skip(0))
                =~~= conv_items(av, idx as int, tv.children));
        }
        let mut k: usize = 0;
        while k < n
            invariant
                0 <= k <= n,
                wf_arena(av),
                av == arena_view(arena@),
                idx < arena@.len(),
                av.len() == arena@.len(),
                tv == temp_view(arena@[idx as int]),
                n == t.children@.len(),
                t == &arena@[idx as int],
                tv.children.len() == n,
                items_view(children@) + conv_items(av, idx as int, tv.children.skip(k as int))
                    == conv_items(av, idx as int, tv.children),
            decreases n - k,
        {
            proof {
                assert(tv.children.skip(k as int)[0] == tv.children[k as int]);
                assert(tv.children.skip(k as int).drop_first() =~= tv.children.skip(k + 1));
                assert(tv.children[k as int] == temp_item_view(t.children@[k as int]));
            }
            match &t.children[k] {
                TempItem::Sub(j) => {
                    proof {
                        assert(av[idx as int].children[k as int] is Sub);
                        assert(idx < av[idx as int].children[k as int]->Sub_0 < av.len());
                    }
                    let sub = Self::convert_to_final(arena, *j);
                    let ghost before = children@;
                    children.push(SectionItem::Subsection(sub));
                    proof {
                        lemma_items_view_push(before, SectionItem::Subsection(sub));
                        assert(items_view(children@) + conv_items(
                            av,
                            idx as int,
                            tv.children.skip(k + 1),
                        ) =~~= conv_items(av, idx as int, tv.children));
                    }
                },
                TempItem::Content(s) => {
                    let c = s.clone();
                    let ghost before = children@;
                    children.push(SectionItem::Content(c));
                    proof {
                        lemma_items_view_push(before, SectionItem::Content(c));
                        assert(items_view(children@) + conv_items(
                            av,
                            idx as int,
                            tv.children.skip(k + 1),
                        ) =~~= conv_items(av, idx as int, tv.children));
                    }
                },
            }
            k += 1;
        }
        proof {
            assert(tv.children.skip(n as int).len() == 0);
            assert(conv_items(av, idx as int, tv.children.skip(n as int)) =~= Seq::<
                ItemV,
            >::empty());
            assert(items_view(children@) =~~= conv_items(av, idx as int, tv.children));
        }
        let r = SectionNode {
            id: t.id,
            title: t.title.clone(),
            level: t.level,
            xml_path: t.xml_path.clone(),
            children,
        };
        proof {
            assert(r@ =~~= conv(av, idx as int));
        }
        r
    }
}

fn node_at_mut(v: &mut Vec<TempNode>, i: usize) -> (r: &mut TempNode)
    requires
        i < old(v)@.len(),
    ensures
        *r == old(v)@[i as int],
        final(v)@ == old(v)@.update(i as int, *final(r)),
{
    &mut v[i]
}

proof fn lemma_count_take_step(secs: Seq<SecV>, i: int)
    requires
        0 <= i < secs.len(),
    ensures
        count_headings(secs.take(i + 1)) == count_headings(secs.take(i)) + (
        if secs[i].element_type is Heading {
            1int
        } else {
            0int
        }),
        count_tables(secs.take(i + 1)) == count_tables(secs.take(i)) + (
        if secs[i].element_type is Table {
            1int
        } else {
            0int
        }),
    decreases i,
{
    if i == 0 {
        assert(secs.take(1).drop_first() =~= Seq::<SecV>::empty());
        assert(secs.take(1)[0] == secs[0]);
        assert(secs.take(0) =~= Seq::<SecV>::empty());
    } else {
        assert(secs.take(i + 1)[0] == secs[0]);
        assert(secs.take(i)[0] == secs[0]);
        assert(secs.take(i + 1).drop_first() =~= secs.drop_first().take(i));
        assert(secs.take(i).drop_first() =~= secs.drop_first().take(i - 1));
        lemma_count_take_step(secs.drop_first(), i - 1);
        assert(secs.drop_first().take(i)[i - 1] == secs[i]);
        assert(secs.drop_first()[i - 1] == secs[i]);
    }
}

} // verus!
