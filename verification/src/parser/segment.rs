use std::borrow::Cow;
use vstd::prelude::*;

verus! {

/// An identifier for a segment of the source text: a name or a number.
#[derive(Debug, PartialEq, Eq)]
pub enum SegmentId {
    Tag(String),
    Lite(u32),
}

/// What a `SegmentId` stands for in contracts.
pub enum SegmentIdView {
    Tag(Seq<char>),
    Lite(u32),
}

impl View for SegmentId {
    type V = SegmentIdView;

    open spec fn view(&self) -> SegmentIdView {
        match self {
            SegmentId::Tag(name) => SegmentIdView::Tag(name@),
            SegmentId::Lite(n) => SegmentIdView::Lite(*n),
        }
    }
}

impl Clone for SegmentId {
    fn clone(&self) -> (r: Self)
        ensures
            r@ == self@,
    {
        match self {
            SegmentId::Tag(name) => SegmentId::Tag(name.clone()),
            SegmentId::Lite(n) => SegmentId::Lite(*n),
        }
    }
}

impl SegmentId {
    /// Whether two identifiers name the same segment.
    pub fn same(&self, other: &SegmentId) -> (r: bool)
        ensures
            r == (self@ == other@),
    {
        match self {
            SegmentId::Tag(a) => match other {
                SegmentId::Tag(b) => *a == *b,
                SegmentId::Lite(_) => false,
            },
            SegmentId::Lite(a) => match other {
                SegmentId::Tag(_) => false,
                SegmentId::Lite(b) => *a == *b,
            },
        }
    }
}

/// The view of an optional identifier.
pub open spec fn id_view(id: Option<SegmentId>) -> Option<SegmentIdView> {
    match id {
        Some(i) => Some(i@),
        None => None,
    }
}

/// A copy of an optional identifier.
pub fn clone_id(id: &Option<SegmentId>) -> (r: Option<SegmentId>)
    ensures
        id_view(r) == id_view(*id),
{
    match id {
        Some(i) => Some(i.clone()),
        None => None,
    }
}

/// Whether two optional identifiers are both absent or name the same segment.
pub fn same_id(a: &Option<SegmentId>, b: &Option<SegmentId>) -> (r: bool)
    ensures
        r == (id_view(*a) == id_view(*b)),
{
    match (a, b) {
        (Some(x), Some(y)) => x.same(y),
        (None, None) => true,
        _ => false,
    }
}

/// A chunk of marked-up source text, with the identifier under which results
/// are attributed to it.
#[derive(Debug, PartialEq, Eq)]
pub struct Segment<'s> {
    pub id: Option<SegmentId>,
    pub content: Cow<'s, str>,
}

impl<'s> Clone for Segment<'s> {
    fn clone(&self) -> (r: Self)
        ensures
            id_view(r.id) == id_view(self.id),
            r.content@ == self.content@,
    {
        Segment { id: clone_id(&self.id), content: Cow::Owned(self.text().to_owned()) }
    }
}

impl<'s> Segment<'s> {
    /// A segment without an identifier that borrows `content`.
    pub fn dummy(content: &'s str) -> (r: Self)
        ensures
            r.id is None,
            r.content@ == content@,
    {
        Segment { id: None, content: Cow::Borrowed(content) }
    }

    /// The source text of the segment.
    pub fn text(&self) -> (r: &str)
        ensures
            r@ == self.content@,
    {
        match &self.content {
            Cow::Borrowed(b) => b,
            Cow::Owned(o) => o.as_str(),
        }
    }
}

} // verus!
