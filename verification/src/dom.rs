//! The parsed-document model that the extraction routines work on: an arena
//! of nodes with stable integer indices, in document order, where a tag's
//! children always lie at higher indices than the tag itself. Locating a
//! container, reading attributes and finding a labeled value are all defined
//! and verified against this model; turning a service page into an arena is
//! the caller's concern.
use crate::text::{contains_token, has_token, str_eq, trim_start_str, trimmed_start, views_of};
use vstd::prelude::*;

verus! {

/// The value a tag attribute carries.
pub enum AttrData {
    /// The attribute is present without a value.
    Valueless,
    /// The attribute has a value whose bytes are not valid text.
    Undecodable,
    /// The attribute has this text value.
    Text(String),
}

/// One attribute of a tag.
pub struct Attr {
    pub name: String,
    pub data: AttrData,
}

/// One node of the parsed document.
pub enum DomNode {
    /// Raw text (or any non-tag node, whose inner text it carries).
    Text(String),
    /// A tag, with its attributes and the arena indices of its children.
    Tag { name: String, attrs: Vec<Attr>, children: Vec<usize> },
}

/// A parsed document: all nodes in document order. Index 0 onward covers the
/// whole page; `wf` asks only that children lie strictly after their parent,
/// which rules out cycles and is what every traversal here leans on.
pub struct Dom {
    pub nodes: Vec<DomNode>,
}

/// The failure kinds of the extraction stages.
#[derive(Debug, Clone, Copy, PartialEq, Eq, Structural)]
pub enum ExtractError {
    /// No element matches the requested container locator.
    MissingContainer,
    /// A node index does not resolve to a node: an internal invariant
    /// violation, kept explicit rather than assumed away.
    MissingNode,
    /// The located node has no children.
    MissingChildren,
    /// A tag carries none of the requested attribute names.
    MissingAttribute,
    /// An attribute value's bytes are not valid text.
    InvalidEncoding,
    /// No descendant's leading boundary matches the label exactly.
    MissingLabel,
}

/// The child indices of node `i`, empty for a non-tag node.
pub open spec fn children_of(nodes: Seq<DomNode>, i: int) -> Seq<usize> {
    match nodes[i] {
        DomNode::Tag { children, .. } => children@,
        _ => Seq::empty(),
    }
}

/// The attributes of node `i`, empty for a non-tag node.
pub open spec fn attrs_of(nodes: Seq<DomNode>, i: int) -> Seq<Attr> {
    match nodes[i] {
        DomNode::Tag { attrs, .. } => attrs@,
        _ => Seq::empty(),
    }
}

/// The tag name of node `i`, empty for a non-tag node.
pub open spec fn tag_name_of(nodes: Seq<DomNode>, i: int) -> Seq<char> {
    match nodes[i] {
        DomNode::Tag { name, .. } => name@,
        _ => Seq::empty(),
    }
}

/// Whether index `i` holds a tag node.
pub open spec fn is_tag(nodes: Seq<DomNode>, i: int) -> bool {
    0 <= i < nodes.len() && nodes[i] is Tag
}

/// Node `i`'s children all lie strictly after `i` and inside the arena.
pub open spec fn node_wf(nodes: Seq<DomNode>, i: int) -> bool {
    forall|k: int|
        0 <= k < children_of(nodes, i).len() ==> i < #[trigger] children_of(nodes, i)[k]
            < nodes.len()
}

/// Every node of the arena is well-formed.
pub open spec fn dom_wf(nodes: Seq<DomNode>) -> bool {
    forall|i: int| 0 <= i < nodes.len() ==> #[trigger] node_wf(nodes, i)
}

/// The inner text of node `i`: its own text for a text node, the
/// concatenated inner text of its children for a tag.
pub open spec fn inner_text_of(nodes: Seq<DomNode>, i: int) -> Seq<char>
    decreases nodes.len() - i, 1int, 0int,
{
    if 0 <= i < nodes.len() {
        match nodes[i] {
            DomNode::Text(t) => t@,
            DomNode::Tag { .. } => tag_text_from(nodes, i, 0),
        }
    } else {
        Seq::empty()
    }
}

/// The concatenated inner text of node `i`'s children from position `k` on.
pub open spec fn tag_text_from(nodes: Seq<DomNode>, i: int, k: int) -> Seq<char>
    decreases nodes.len() - i, 0int, children_of(nodes, i).len() - k,
{
    let ch = children_of(nodes, i);
    if 0 <= k < ch.len() {
        let c = ch[k] as int;
        (if i < c < nodes.len() {
            inner_text_of(nodes, c)
        } else {
            Seq::empty()
        }) + tag_text_from(nodes, i, k + 1)
    } else {
        Seq::empty()
    }
}

/// The descendants of node `i` in document (pre-)order, excluding `i`.
pub open spec fn subtree_of(nodes: Seq<DomNode>, i: int) -> Seq<usize>
    decreases nodes.len() - i, 1int, 0int,
{
    if 0 <= i < nodes.len() {
        subtree_from(nodes, i, 0)
    } else {
        Seq::empty()
    }
}

/// The descendants contributed by node `i`'s children from position `k` on.
pub open spec fn subtree_from(nodes: Seq<DomNode>, i: int, k: int) -> Seq<usize>
    decreases nodes.len() - i, 0int, children_of(nodes, i).len() - k,
{
    let ch = children_of(nodes, i);
    if 0 <= k < ch.len() {
        let c = ch[k] as int;
        (if i < c < nodes.len() {
            seq![ch[k]] + subtree_of(nodes, c)
        } else {
            Seq::empty()
        }) + subtree_from(nodes, i, k + 1)
    } else {
        Seq::empty()
    }
}

/// Every descendant index lies strictly after `i` and inside the arena.
pub proof fn lemma_subtree_bounds(nodes: Seq<DomNode>, i: int)
    requires
        dom_wf(nodes),
        0 <= i < nodes.len(),
    ensures
        forall|j: int|
            0 <= j < subtree_of(nodes, i).len() ==> i < #[trigger] subtree_of(nodes, i)[j]
                < nodes.len(),
    decreases nodes.len() - i, 1int, 0int,
{
    lemma_subtree_from_bounds(nodes, i, 0);
    assert(subtree_of(nodes, i) == subtree_from(nodes, i, 0));
    assert forall|j: int|
        0 <= j < subtree_of(nodes, i).len() implies i < #[trigger] subtree_of(nodes, i)[j]
        < nodes.len() by {
        assert(subtree_of(nodes, i)[j] == subtree_from(nodes, i, 0)[j]);
    }
}

pub proof fn lemma_subtree_from_bounds(nodes: Seq<DomNode>, i: int, k: int)
    requires
        dom_wf(nodes),
        0 <= i < nodes.len(),
    ensures
        forall|j: int|
            0 <= j < subtree_from(nodes, i, k).len() ==> i < #[trigger] subtree_from(nodes, i, k)[j]
                < nodes.len(),
    decreases nodes.len() - i, 0int, children_of(nodes, i).len() - k,
{
    let ch = children_of(nodes, i);
    if 0 <= k < ch.len() {
        let c = ch[k] as int;
        assert(node_wf(nodes, i));
        assert(i < c < nodes.len());
        lemma_subtree_bounds(nodes, c);
        lemma_subtree_from_bounds(nodes, i, k + 1);
        let head = seq![ch[k]] + subtree_of(nodes, c);
        let tail = subtree_from(nodes, i, k + 1);
        assert forall|j: int|
            0 <= j < subtree_from(nodes, i, k).len() implies i < #[trigger] subtree_from(
            nodes,
            i,
            k,
        )[j] < nodes.len() by {
            assert(subtree_from(nodes, i, k) == head + tail);
            if j < head.len() {
                assert(subtree_from(nodes, i, k)[j] == head[j]);
                if j == 0 {
                } else {
                    assert(head[j] == subtree_of(nodes, c)[j - 1]);
                }
            } else {
                assert(subtree_from(nodes, i, k)[j] == tail[j - head.len()]);
            }
        }
    }
}

impl Dom {
    /// Checks the arena invariant at run time, for documents built by
    /// callers outside the library.
    #[verifier::loop_isolation(false)]
    pub fn check_wf(&self) -> (r: bool)
        ensures
            r == self.wf(),
    {
        let n = self.nodes.len();
        let mut i: usize = 0;
        while i < n
            invariant
                i <= n,
                forall|t: int| 0 <= t < i ==> #[trigger] node_wf(self.nodes@, t),
            decreases n - i,
        {
            match &self.nodes[i] {
                DomNode::Tag { children, .. } => {
                    let mut k: usize = 0;
                    while k < children.len()
                        invariant
                            i < n,
                            children@ == children_of(self.nodes@, i as int),
                            k <= children@.len(),
                            forall|t: int|
                                0 <= t < k ==> i < #[trigger] children_of(self.nodes@, i as int)[t]
                                    < n,
                        decreases children@.len() - k,
                    {
                        let c = children[k];
                        if c <= i || c >= n {
                            proof {
                                assert(!node_wf(self.nodes@, i as int)) by {
                                    if node_wf(self.nodes@, i as int) {
                                        assert(i < children_of(self.nodes@, i as int)[k as int]
                                            < n);
                                    }
                                }
                            }
                            return false;
                        }
                        k = k + 1;
                    }
                    proof {
                        assert(node_wf(self.nodes@, i as int));
                    }
                },
                _ => {
                    proof {
                        assert(node_wf(self.nodes@, i as int));
                    }
                },
            }
            i = i + 1;
        }
        true
    }

    /// The arena is well-formed: children lie strictly after their parent.
    pub open spec fn wf(&self) -> bool {
        dom_wf(self.nodes@)
    }

    /// How many nodes the arena holds.
    pub fn len(&self) -> (r: usize)
        ensures
            r == self.nodes@.len(),
    {
        self.nodes.len()
    }

    /// Resolves an index to its node; a stale or out-of-range index is the
    /// invariant violation that `MissingNode` marks.
    pub fn require_node(&self, i: usize) -> (r: Result<&DomNode, ExtractError>)
        ensures
            match r {
                Ok(n) => i < self.nodes@.len() && *n == self.nodes@[i as int],
                Err(e) => i >= self.nodes@.len() && e == ExtractError::MissingNode,
            },
    {
        if i < self.nodes.len() {
            Ok(&self.nodes[i])
        } else {
            Err(ExtractError::MissingNode)
        }
    }

    /// Fails with `MissingChildren` unless node `i` has at least one child.
    pub fn require_children(&self, i: usize) -> (r: Result<(), ExtractError>)
        requires
            i < self.nodes@.len(),
        ensures
            r is Ok <==> children_of(self.nodes@, i as int).len() > 0,
            r is Err ==> r->Err_0 == ExtractError::MissingChildren,
    {
        match &self.nodes[i] {
            DomNode::Tag { children, .. } => {
                if children.len() > 0 {
                    Ok(())
                } else {
                    Err(ExtractError::MissingChildren)
                }
            },
            _ => Err(ExtractError::MissingChildren),
        }
    }

    /// The inner text of node `i`.
    pub fn inner_text(&self, i: usize) -> (r: String)
        requires
            self.wf(),
            i < self.nodes@.len(),
        ensures
            r@ == inner_text_of(self.nodes@, i as int),
        decreases self.nodes@.len() - i,
    {
        match &self.nodes[i] {
            DomNode::Text(t) => t.clone(),
            DomNode::Tag { children, .. } => {
                let mut out = String::new();
                let mut k: usize = 0;
                while k < children.len()
                    invariant
                        self.wf(),
                        i < self.nodes@.len(),
                        children@ == children_of(self.nodes@, i as int),
                        k <= children@.len(),
                        out@ + tag_text_from(self.nodes@, i as int, k as int) == tag_text_from(
                            self.nodes@,
                            i as int,
                            0,
                        ),
                    decreases children@.len() - k,
                {
                    let c = children[k];
                    proof {
                        assert(node_wf(self.nodes@, i as int));
                        assert(i < children_of(self.nodes@, i as int)[k as int] < self.nodes@.len());
                    }
                    let piece = self.inner_text(c);
                    let ghost oo = out@;
                    out.append(piece.as_str());
                    proof {
                        let rest = tag_text_from(self.nodes@, i as int, k + 1);
                        assert(tag_text_from(self.nodes@, i as int, k as int) == piece@ + rest);
                        assert((oo + (piece@ + rest)) =~= ((oo + piece@) + rest));
                    }
                    k = k + 1;
                }
                proof {
                    assert(out@ + tag_text_from(self.nodes@, i as int, k as int) =~= out@);
                }
                out
            },
        }
    }

    /// The descendants of node `i` in document order.
    pub fn subtree(&self, i: usize) -> (r: Vec<usize>)
        requires
            self.wf(),
            i < self.nodes@.len(),
        ensures
            r@ == subtree_of(self.nodes@, i as int),
        decreases self.nodes@.len() - i,
    {
        let mut out: Vec<usize> = Vec::new();
        match &self.nodes[i] {
            DomNode::Text(_) => {
                proof {
                    assert(subtree_of(self.nodes@, i as int) =~= Seq::<usize>::empty());
                }
            },
            DomNode::Tag { children, .. } => {
                let mut k: usize = 0;
                while k < children.len()
                    invariant
                        self.wf(),
                        i < self.nodes@.len(),
                        children@ == children_of(self.nodes@, i as int),
                        k <= children@.len(),
                        out@ + subtree_from(self.nodes@, i as int, k as int) == subtree_from(
                            self.nodes@,
                            i as int,
                            0,
                        ),
                    decreases children@.len() - k,
                {
                    let c = children[k];
                    proof {
                        assert(node_wf(self.nodes@, i as int));
                        assert(i < children_of(self.nodes@, i as int)[k as int] < self.nodes@.len());
                    }
                    let ghost oo = out@;
                    out.push(c);
                    let mut sub = self.subtree(c);
                    let ghost subv = sub@;
                    out.append(&mut sub);
                    proof {
                        let rest = subtree_from(self.nodes@, i as int, k + 1);
                        assert(tag_child_part(self.nodes@, i as int, k as int) == seq![c] + subv);
                        assert(subtree_from(self.nodes@, i as int, k as int) == (seq![c] + subv)
                            + rest);
                        assert(out@ =~= oo + (seq![c] + subv));
                        assert((oo + ((seq![c] + subv) + rest)) =~= ((oo + (seq![c] + subv))
                            + rest));
                    }
                    k = k + 1;
                }
                proof {
                    assert(out@ + subtree_from(self.nodes@, i as int, k as int) =~= out@);
                }
            },
        }
        out
    }
}

/// The part of `subtree_from` contributed by child `k` alone.
pub open spec fn tag_child_part(nodes: Seq<DomNode>, i: int, k: int) -> Seq<usize> {
    let ch = children_of(nodes, i);
    let c = ch[k] as int;
    if i < c < nodes.len() {
        seq![ch[k]] + subtree_of(nodes, c)
    } else {
        Seq::empty()
    }
}

/// The first attribute of `attrs` named `name`, if any; the first match wins.
pub open spec fn attr_find(attrs: Seq<Attr>, name: Seq<char>) -> Option<AttrData>
    decreases attrs.len(),
{
    if attrs.len() == 0 {
        None
    } else if attrs[0].name@ == name {
        Some(attrs[0].data)
    } else {
        attr_find(attrs.drop_first(), name)
    }
}

/// The value of the first name of `names` that is present among `attrs`.
pub open spec fn first_present(attrs: Seq<Attr>, names: Seq<Seq<char>>) -> Option<AttrData>
    decreases names.len(),
{
    if names.len() == 0 {
        None
    } else {
        match attr_find(attrs, names[0]) {
            Some(d) => Some(d),
            None => first_present(attrs, names.drop_first()),
        }
    }
}

/// Whether tag `i`'s `class` attribute lists `cls` among its
/// whitespace-separated class tokens.
pub open spec fn has_class(nodes: Seq<DomNode>, i: int, cls: Seq<char>) -> bool {
    is_tag(nodes, i) && match attr_find(attrs_of(nodes, i), "class"@) {
        Some(AttrData::Text(v)) => has_token(v@, cls),
        _ => false,
    }
}

/// Whether tag `i`'s `id` attribute equals `id` exactly.
pub open spec fn has_id(nodes: Seq<DomNode>, i: int, id: Seq<char>) -> bool {
    is_tag(nodes, i) && match attr_find(attrs_of(nodes, i), "id"@) {
        Some(AttrData::Text(v)) => v@ == id,
        _ => false,
    }
}

/// The first node from position `k` on that bears class `cls`.
pub open spec fn first_with_class_from(nodes: Seq<DomNode>, cls: Seq<char>, k: int) -> Option<int>
    decreases nodes.len() - k,
{
    if 0 <= k < nodes.len() {
        if has_class(nodes, k, cls) {
            Some(k)
        } else {
            first_with_class_from(nodes, cls, k + 1)
        }
    } else {
        None
    }
}

/// The first node, in document order, that bears class `cls`.
pub open spec fn first_with_class(nodes: Seq<DomNode>, cls: Seq<char>) -> Option<int> {
    first_with_class_from(nodes, cls, 0)
}

/// The first node from position `k` on whose `id` equals `id`.
pub open spec fn first_with_id_from(nodes: Seq<DomNode>, id: Seq<char>, k: int) -> Option<int>
    decreases nodes.len() - k,
{
    if 0 <= k < nodes.len() {
        if has_id(nodes, k, id) {
            Some(k)
        } else {
            first_with_id_from(nodes, id, k + 1)
        }
    } else {
        None
    }
}

/// The first node, in document order, whose `id` equals `id`.
pub open spec fn first_with_id(nodes: Seq<DomNode>, id: Seq<char>) -> Option<int> {
    first_with_id_from(nodes, id, 0)
}

/// The nodes from position `k` on whose tag name is `tag` and whose class
/// list names `cls`, in document order.
pub open spec fn selected_from(nodes: Seq<DomNode>, tag: Seq<char>, cls: Seq<char>, k: int) -> Seq<
    usize,
>
    decreases nodes.len() - k,
{
    if 0 <= k < nodes.len() {
        (if tag_name_of(nodes, k) == tag && has_class(nodes, k, cls) {
            seq![k as usize]
        } else {
            Seq::empty()
        }) + selected_from(nodes, tag, cls, k + 1)
    } else {
        Seq::empty()
    }
}

/// All nodes matching tag name `tag` and class `cls`, in document order.
pub open spec fn selected(nodes: Seq<DomNode>, tag: Seq<char>, cls: Seq<char>) -> Seq<usize> {
    selected_from(nodes, tag, cls, 0)
}

/// The attribute values collected from `idxs` in document order: for each
/// tag node the first of `names` that is present decides; a node carrying
/// none of the names fails, an undecodable value fails, and a valueless
/// attribute or a non-tag node is skipped.
pub open spec fn collected_values(
    nodes: Seq<DomNode>,
    idxs: Seq<usize>,
    names: Seq<Seq<char>>,
) -> Result<Seq<Seq<char>>, ExtractError>
    decreases idxs.len(),
{
    if idxs.len() == 0 {
        Ok(Seq::empty())
    } else {
        let i = idxs[0] as int;
        if is_tag(nodes, i) {
            match first_present(attrs_of(nodes, i), names) {
                None => Err(ExtractError::MissingAttribute),
                Some(AttrData::Undecodable) => Err(ExtractError::InvalidEncoding),
                Some(AttrData::Valueless) => collected_values(nodes, idxs.drop_first(), names),
                Some(AttrData::Text(v)) => match collected_values(
                    nodes,
                    idxs.drop_first(),
                    names,
                ) {
                    Ok(rest) => Ok(seq![v@] + rest),
                    Err(e) => Err(e),
                },
            }
        } else {
            collected_values(nodes, idxs.drop_first(), names)
        }
    }
}

/// Whether the children of `d` open with a boundary whose inner text is
/// exactly `label`: no trimming, no fuzzy match.
pub open spec fn label_matches(nodes: Seq<DomNode>, d: int, label: Seq<char>) -> bool {
    children_of(nodes, d).len() > 0 && inner_text_of(nodes, children_of(nodes, d)[0] as int)
        == label
}

/// The value paired with a matching label: the trailing boundary's inner
/// text, with leading whitespace removed.
pub open spec fn label_value_at(nodes: Seq<DomNode>, d: int) -> Seq<char> {
    let ch = children_of(nodes, d);
    trimmed_start(inner_text_of(nodes, ch[ch.len() - 1] as int))
}

/// The first labeled value among `cands` from position `k` on.
pub open spec fn labeled_value_from(
    nodes: Seq<DomNode>,
    cands: Seq<usize>,
    label: Seq<char>,
    k: int,
) -> Option<Seq<char>>
    decreases cands.len() - k,
{
    if 0 <= k < cands.len() {
        let d = cands[k] as int;
        if label_matches(nodes, d, label) {
            Some(label_value_at(nodes, d))
        } else {
            labeled_value_from(nodes, cands, label, k + 1)
        }
    } else {
        None
    }
}

/// The labeled value among the descendants of `container`, in document
/// order, if any descendant's leading boundary matches `label` exactly.
pub open spec fn labeled_value(nodes: Seq<DomNode>, container: int, label: Seq<char>) -> Option<
    Seq<char>,
> {
    labeled_value_from(nodes, subtree_of(nodes, container), label, 0)
}

/// Looks `name` up among `attrs`, first match winning.
pub fn attr_get<'a>(attrs: &'a Vec<Attr>, name: &str) -> (r: Option<&'a AttrData>)
    ensures
        match r {
            Some(d) => attr_find(attrs@, name@) == Some(*d),
            None => attr_find(attrs@, name@) is None,
        },
{
    proof {
        assert(attrs@.subrange(0, attrs@.len() as int) =~= attrs@);
    }
    let mut k: usize = 0;
    while k < attrs.len()
        invariant
            k <= attrs@.len(),
            attr_find(attrs@, name@) == attr_find(
                attrs@.subrange(k as int, attrs@.len() as int),
                name@,
            ),
        decreases attrs@.len() - k,
    {
        proof {
            let rest = attrs@.subrange(k as int, attrs@.len() as int);
            assert(rest[0] == attrs@[k as int]);
            assert(rest.drop_first() =~= attrs@.subrange(k + 1, attrs@.len() as int));
        }
        let a = &attrs[k];
        if str_eq(a.name.as_str(), name) {
            return Some(&a.data);
        }
        k = k + 1;
    }
    None
}

/// The value of the first name of `names` present among `attrs`.
fn first_present_get<'a>(attrs: &'a Vec<Attr>, names: &Vec<String>) -> (r: Option<&'a AttrData>)
    ensures
        match r {
            Some(d) => first_present(attrs@, views_of(names@)) == Some(*d),
            None => first_present(attrs@, views_of(names@)) is None,
        },
{
    proof {
        assert(views_of(names@).subrange(0, names@.len() as int) =~= views_of(names@));
    }
    let mut t: usize = 0;
    while t < names.len()
        invariant
            t <= names@.len(),
            first_present(attrs@, views_of(names@)) == first_present(
                attrs@,
                views_of(names@).subrange(t as int, names@.len() as int),
            ),
        decreases names@.len() - t,
    {
        proof {
            let rest = views_of(names@).subrange(t as int, names@.len() as int);
            assert(rest[0] == views_of(names@)[t as int]);
            assert(views_of(names@)[t as int] == names@[t as int]@);
            assert(rest.drop_first() =~= views_of(names@).subrange(t + 1, names@.len() as int));
        }
        match attr_get(attrs, names[t].as_str()) {
            Some(d) => {
                return Some(d);
            },
            None => {},
        }
        t = t + 1;
    }
    None
}

impl Dom {
    /// Whether node `i` is a tag whose class list names `cls`.
    pub fn node_has_class(&self, i: usize, cls: &str) -> (r: bool)
        requires
            i < self.nodes@.len(),
        ensures
            r == has_class(self.nodes@, i as int, cls@),
    {
        match &self.nodes[i] {
            DomNode::Tag { attrs, .. } => match attr_get(attrs, "class") {
                Some(AttrData::Text(v)) => contains_token(v.as_str(), cls),
                _ => false,
            },
            _ => false,
        }
    }

    /// Whether node `i` is a tag whose `id` equals `id`.
    pub fn node_has_id(&self, i: usize, id: &str) -> (r: bool)
        requires
            i < self.nodes@.len(),
        ensures
            r == has_id(self.nodes@, i as int, id@),
    {
        match &self.nodes[i] {
            DomNode::Tag { attrs, .. } => match attr_get(attrs, "id") {
                Some(AttrData::Text(v)) => str_eq(v.as_str(), id),
                _ => false,
            },
            _ => false,
        }
    }

    /// Finds the first element bearing class `cls`, or `MissingContainer`.
    pub fn find_by_class(&self, cls: &str) -> (r: Result<usize, ExtractError>)
        ensures
            match r {
                Ok(i) => first_with_class(self.nodes@, cls@) == Some(i as int) && i
                    < self.nodes@.len(),
                Err(e) => first_with_class(self.nodes@, cls@) is None && e
                    == ExtractError::MissingContainer,
            },
    {
        let n = self.nodes.len();
        let mut k: usize = 0;
        while k < n
            invariant
                n == self.nodes@.len(),
                k <= n,
                first_with_class_from(self.nodes@, cls@, 0) == first_with_class_from(
                    self.nodes@,
                    cls@,
                    k as int,
                ),
            decreases n - k,
        {
            if self.node_has_class(k, cls) {
                return Ok(k);
            }
            k = k + 1;
        }
        Err(ExtractError::MissingContainer)
    }

    /// Finds the element whose `id` equals `id`, or `MissingContainer`.
    pub fn find_by_id(&self, id: &str) -> (r: Result<usize, ExtractError>)
        ensures
            match r {
                Ok(i) => first_with_id(self.nodes@, id@) == Some(i as int) && i
                    < self.nodes@.len(),
                Err(e) => first_with_id(self.nodes@, id@) is None && e
                    == ExtractError::MissingContainer,
            },
    {
        let n = self.nodes.len();
        let mut k: usize = 0;
        while k < n
            invariant
                n == self.nodes@.len(),
                k <= n,
                first_with_id_from(self.nodes@, id@, 0) == first_with_id_from(
                    self.nodes@,
                    id@,
                    k as int,
                ),
            decreases n - k,
        {
            if self.node_has_id(k, id) {
                return Ok(k);
            }
            k = k + 1;
        }
        Err(ExtractError::MissingContainer)
    }

    /// All elements matching tag name `tag` and class `cls`, in document
    /// order; an empty match is not an error.
    pub fn select_all(&self, tag: &str, cls: &str) -> (r: Vec<usize>)
        ensures
            r@ == selected(self.nodes@, tag@, cls@),
            forall|j: int| 0 <= j < r@.len() ==> #[trigger] r@[j] < self.nodes@.len(),
    {
        let n = self.nodes.len();
        let mut out: Vec<usize> = Vec::new();
        let mut k: usize = 0;
        while k < n
            invariant
                n == self.nodes@.len(),
                k <= n,
                out@ + selected_from(self.nodes@, tag@, cls@, k as int) == selected_from(
                    self.nodes@,
                    tag@,
                    cls@,
                    0,
                ),
                forall|j: int| 0 <= j < out@.len() ==> #[trigger] out@[j] < self.nodes@.len(),
            decreases n - k,
        {
            let matches_tag = match &self.nodes[k] {
                DomNode::Tag { name, .. } => str_eq(name.as_str(), tag),
                _ => false,
            };
            if matches_tag && self.node_has_class(k, cls) {
                let ghost oo = out@;
                out.push(k);
                proof {
                    let rest = selected_from(self.nodes@, tag@, cls@, k + 1);
                    assert(selected_from(self.nodes@, tag@, cls@, k as int) == seq![k as usize]
                        + rest);
                    assert(out@ =~= oo + seq![k as usize]);
                    assert((oo + (seq![k as usize] + rest)) =~= ((oo + seq![k as usize]) + rest));
                }
            } else {
                proof {
                    assert(selected_from(self.nodes@, tag@, cls@, k as int) =~= Seq::<
                        usize,
                    >::empty() + selected_from(self.nodes@, tag@, cls@, k + 1));
                }
            }
            k = k + 1;
        }
        proof {
            assert(selected_from(self.nodes@, tag@, cls@, n as int) =~= Seq::<usize>::empty());
            assert(out@ + Seq::<usize>::empty() =~= out@);
        }
        out
    }

    /// Collects attribute values across `idxs` in document order; `names`
    /// is the priority-ordered list of attribute names to try.
    pub fn collect_attribute_values(&self, idxs: &Vec<usize>, names: &Vec<String>) -> (r: Result<
        Vec<String>,
        ExtractError,
    >)
        requires
            forall|j: int| 0 <= j < idxs@.len() ==> #[trigger] idxs@[j] < self.nodes@.len(),
        ensures
            match r {
                Ok(vs) => collected_values(self.nodes@, idxs@, views_of(names@)) == Ok::<
                    _,
                    ExtractError,
                >(views_of(vs@)),
                Err(e) => collected_values(self.nodes@, idxs@, views_of(names@)) == Err::<
                    Seq<Seq<char>>,
                    _,
                >(e),
            },
    {
        proof {
            assert(idxs@.subrange(0, idxs@.len() as int) =~= idxs@);
            assert(views_of(Seq::<String>::empty()) =~= Seq::<Seq<char>>::empty());
        }
        let mut out: Vec<String> = Vec::new();
        let mut k: usize = 0;
        while k < idxs.len()
            invariant
                forall|j: int| 0 <= j < idxs@.len() ==> #[trigger] idxs@[j] < self.nodes@.len(),
                k <= idxs@.len(),
                collected_values(self.nodes@, idxs@, views_of(names@)) == (match collected_values(
                    self.nodes@,
                    idxs@.subrange(k as int, idxs@.len() as int),
                    views_of(names@),
                ) {
                    Ok(rest) => Ok::<_, ExtractError>(views_of(out@) + rest),
                    Err(e) => Err(e),
                }),
            decreases idxs@.len() - k,
        {
            let ghost rest_idxs = idxs@.subrange(k as int, idxs@.len() as int);
            proof {
                assert(rest_idxs[0] == idxs@[k as int]);
                assert(rest_idxs.drop_first() =~= idxs@.subrange(k + 1, idxs@.len() as int));
            }
            let i = idxs[k];
            match &self.nodes[i] {
                DomNode::Tag { attrs, .. } => {
                    match first_present_get(attrs, names) {
                        None => {
                            return Err(ExtractError::MissingAttribute);
                        },
                        Some(AttrData::Undecodable) => {
                            return Err(ExtractError::InvalidEncoding);
                        },
                        Some(AttrData::Valueless) => {},
                        Some(AttrData::Text(v)) => {
                            let ghost oo = views_of(out@);
                            let value = v.clone();
                            out.push(value);
                            proof {
                                assert(views_of(out@) =~= oo + seq![v@]);
                                if collected_values(
                                    self.nodes@,
                                    rest_idxs.drop_first(),
                                    views_of(names@),
                                ) is Ok {
                                    let rest = collected_values(
                                        self.nodes@,
                                        rest_idxs.drop_first(),
                                        views_of(names@),
                                    )->Ok_0;
                                    assert((oo + (seq![v@] + rest)) =~= ((oo + seq![v@]) + rest));
                                }
                            }
                        },
                    }
                },
                _ => {},
            }
            k = k + 1;
        }
        proof {
            assert(idxs@.subrange(k as int, idxs@.len() as int) =~= Seq::<usize>::empty());
            assert(views_of(out@) + Seq::<Seq<char>>::empty() =~= views_of(out@));
        }
        Ok(out)
    }

    /// Scans the descendants of `container` in document order for one whose
    /// leading child boundary has inner text exactly `label`, and returns the
    /// trailing boundary's inner text with leading whitespace removed; fails
    /// with `MissingLabel` if no exact match exists.
    pub fn find_labeled_value(&self, container: usize, label: &str) -> (r: Result<
        String,
        ExtractError,
    >)
        requires
            self.wf(),
            container < self.nodes@.len(),
        ensures
            match r {
                Ok(v) => labeled_value(self.nodes@, container as int, label@) == Some(v@),
                Err(e) => labeled_value(self.nodes@, container as int, label@) is None && e
                    == ExtractError::MissingLabel,
            },
    {
        let cands = self.subtree(container);
        proof {
            lemma_subtree_bounds(self.nodes@, container as int);
        }
        let mut k: usize = 0;
        while k < cands.len()
            invariant
                self.wf(),
                container < self.nodes@.len(),
                cands@ == subtree_of(self.nodes@, container as int),
                k <= cands@.len(),
                forall|j: int|
                    0 <= j < cands@.len() ==> container < #[trigger] cands@[j]
                        < self.nodes@.len(),
                labeled_value_from(self.nodes@, cands@, label@, 0) == labeled_value_from(
                    self.nodes@,
                    cands@,
                    label@,
                    k as int,
                ),
            decreases cands@.len() - k,
        {
            let d = cands[k];
            match &self.nodes[d] {
                DomNode::Tag { children, .. } => {
                    if children.len() > 0 {
                        proof {
                            assert(node_wf(self.nodes@, d as int));
                            assert(d < children_of(self.nodes@, d as int)[0] < self.nodes@.len());
                            assert(d < children_of(self.nodes@, d as int)[children_of(
                                self.nodes@,
                                d as int,
                            ).len() - 1] < self.nodes@.len());
                        }
                        let first = children[0];
                        let t = self.inner_text(first);
                        if str_eq(t.as_str(), label) {
                            let lastc = children[children.len() - 1];
                            let v = self.inner_text(lastc);
                            let trimmed = trim_start_str(v.as_str());
                            proof {
                                assert(label_matches(self.nodes@, d as int, label@));
                                assert(trimmed@ == label_value_at(self.nodes@, d as int));
                            }
                            return Ok(trimmed);
                        }
                    }
                },
                _ => {},
            }
            proof {
                assert(!label_matches(self.nodes@, d as int, label@));
            }
            k = k + 1;
        }
        Err(ExtractError::MissingLabel)
    }
}

} // verus!
