use vstd::prelude::*;

use crate::format::{decimal, int_decimal};
use crate::text::push_str;

verus! {

/// Whether an entry of the history is a request sent or a response received.
#[derive(Debug, Clone, Copy, PartialEq, Eq, Structural)]
pub enum ItemKind {
    Request,
    Response,
}

/// One entry of the request history of a method tab: its label, whether it
/// is shown expanded, the JSON text it holds and, for a response, how long it
/// took.
#[derive(Debug, Clone)]
pub struct StreamItem {
    pub kind: ItemKind,
    pub label: String,
    pub expanded: bool,
    pub body: String,
    pub duration: String,
}

impl StreamItem {
    /// A copy of this entry.
    pub fn duplicate(&self) -> (res: StreamItem)
        ensures
            res == *self,
    {
        StreamItem {
            kind: self.kind,
            label: self.label.clone(),
            expanded: self.expanded,
            body: self.body.clone(),
            duration: self.duration.clone(),
        }
    }
}

/// The history of requests and responses of a method tab.
#[derive(Debug, Clone)]
pub struct StreamState {
    items: Vec<StreamItem>,
    request_count: usize,
    response_count: usize,
}

/// The label of the `n`th entry of a kind: "Request n" or "Response n".
pub open spec fn item_label(kind: ItemKind, n: int) -> Seq<char> {
    match kind {
        ItemKind::Request => "Request "@ + int_decimal(n),
        ItemKind::Response => "Response "@ + int_decimal(n),
    }
}

impl StreamState {
    pub closed spec fn spec_items(&self) -> Seq<StreamItem> {
        self.items@
    }

    pub closed spec fn spec_request_count(&self) -> nat {
        self.request_count as nat
    }

    pub closed spec fn spec_response_count(&self) -> nat {
        self.response_count as nat
    }

    /// An empty history.
    pub fn new() -> (res: StreamState)
        ensures
            res.spec_items().len() == 0,
            res.spec_request_count() == 0,
            res.spec_response_count() == 0,
            res.consistent(),
    {
        StreamState { items: Vec::new(), request_count: 0, response_count: 0 }
    }

    /// Two histories with the same entries and counts.
    pub open spec fn same(&self, other: StreamState) -> bool {
        &&& self.spec_items() == other.spec_items()
        &&& self.spec_request_count() == other.spec_request_count()
        &&& self.spec_response_count() == other.spec_response_count()
    }

    /// A copy of this history.
    pub fn duplicate(&self) -> (res: StreamState)
        ensures
            res.same(*self),
    {
        let mut items: Vec<StreamItem> = Vec::new();
        let mut i: usize = 0;
        while i < self.items.len()
            invariant
                i <= self.items@.len(),
                items@ == self.items@.subrange(0, i as int),
            decreases self.items@.len() - i,
        {
            items.push(self.items[i].duplicate());
            proof {
                assert(items@ =~= self.items@.subrange(0, i + 1));
            }
            i = i + 1;
        }
        proof {
            assert(items@ =~= self.items@);
        }
        StreamState { items, request_count: self.request_count, response_count: self.response_count }
    }

    /// The entries, oldest first.
    pub fn items(&self) -> (res: &[StreamItem])
        ensures
            res@ == self.spec_items(),
    {
        self.items.as_slice()
    }

    /// The number of requests added since the history was last cleared.
    pub fn request_count(&self) -> (n: usize)
        ensures
            n == self.spec_request_count(),
    {
        self.request_count
    }

    /// The number of responses added since the history was last cleared.
    pub fn response_count(&self) -> (n: usize)
        ensures
            n == self.spec_response_count(),
    {
        self.response_count
    }

    /// Folds every entry.
    fn collapse_all(&mut self)
        ensures
            final(self).items@.len() == old(self).items@.len(),
            final(self).request_count == old(self).request_count,
            final(self).response_count == old(self).response_count,
            forall|i: int|
                0 <= i < final(self).items@.len() ==> {
                    let a = #[trigger] final(self).items@[i];
                    let b = old(self).items@[i];
                    &&& !a.expanded
                    &&& a.kind == b.kind
                    &&& a.label@ == b.label@
                    &&& a.body@ == b.body@
                    &&& a.duration@ == b.duration@
                },
    {
        let mut i: usize = 0;
        while i < self.items.len()
            invariant
                i <= self.items@.len(),
                self.items@.len() == old(self).items@.len(),
                self.request_count == old(self).request_count,
                self.response_count == old(self).response_count,
                forall|j: int|
                    0 <= j < self.items@.len() ==> {
                        let a = #[trigger] self.items@[j];
                        let b = old(self).items@[j];
                        &&& (j < i ==> !a.expanded)
                        &&& (j >= i ==> a.expanded == b.expanded)
                        &&& a.kind == b.kind
                        &&& a.label@ == b.label@
                        &&& a.body@ == b.body@
                        &&& a.duration@ == b.duration@
                    },
            decreases self.items@.len() - i,
        {
            let item = StreamItem {
                kind: self.items[i].kind,
                label: self.items[i].label.clone(),
                expanded: false,
                body: self.items[i].body.clone(),
                duration: self.items[i].duration.clone(),
            };
            self.items.set(i, item);
            i = i + 1;
        }
    }

    /// Adds a request holding `body`: every earlier entry is folded and the
    /// new one, labelled "Request n" for the n-th request, is shown
    /// expanded.
    pub fn add_request(&mut self, body: String)
        requires
            old(self).spec_request_count() < usize::MAX,
        ensures
            final(self).spec_request_count() == old(self).spec_request_count() + 1,
            final(self).spec_response_count() == old(self).spec_response_count(),
            pushed_folded(old(self).spec_items(), final(self).spec_items()),
            final(self).spec_items().last().kind == ItemKind::Request,
            final(self).spec_items().last().label@ == item_label(
                ItemKind::Request,
                final(self).spec_request_count() as int,
            ),
            final(self).spec_items().last().expanded,
            final(self).spec_items().last().body@ == body@,
            final(self).spec_items().last().duration@ == Seq::<char>::empty(),
            old(self).consistent() ==> final(self).consistent(),
    {
        self.collapse_all();
        self.request_count = self.request_count + 1;
        let mut label = String::new();
        push_str(&mut label, "Request ");
        let n = decimal(self.request_count as i128);
        push_str(&mut label, n.as_str());
        proof {
            reveal_strlit("Request ");
        }
        let ghost before = old(self).spec_items();
        self.items.push(
            StreamItem {
                kind: ItemKind::Request,
                label,
                expanded: true,
                body,
                duration: String::new(),
            },
        );
        proof {
            if old(self).consistent() {
                law_add_keeps_numbering(before, self.items@, ItemKind::Request);
            }
        }
    }

    /// Adds a response holding `body`, which took `duration` (its text, empty
    /// when unknown): every earlier entry is folded and the new one, labelled
    /// "Response n" for the n-th response, is shown expanded.
    pub fn add_response(&mut self, body: String, duration: String)
        requires
            old(self).spec_response_count() < usize::MAX,
        ensures
            final(self).spec_response_count() == old(self).spec_response_count() + 1,
            final(self).spec_request_count() == old(self).spec_request_count(),
            pushed_folded(old(self).spec_items(), final(self).spec_items()),
            final(self).spec_items().last().kind == ItemKind::Response,
            final(self).spec_items().last().label@ == item_label(
                ItemKind::Response,
                final(self).spec_response_count() as int,
            ),
            final(self).spec_items().last().expanded,
            final(self).spec_items().last().body@ == body@,
            final(self).spec_items().last().duration@ == duration@,
            old(self).consistent() ==> final(self).consistent(),
    {
        self.collapse_all();
        self.response_count = self.response_count + 1;
        let mut label = String::new();
        push_str(&mut label, "Response ");
        let n = decimal(self.response_count as i128);
        push_str(&mut label, n.as_str());
        proof {
            reveal_strlit("Response ");
        }
        let ghost before = old(self).spec_items();
        self.items.push(
            StreamItem {
                kind: ItemKind::Response,
                label,
                expanded: true,
                body,
                duration,
            },
        );
        proof {
            if old(self).consistent() {
                law_add_keeps_numbering(before, self.items@, ItemKind::Response);
            }
        }
    }

    /// Empties the history and restarts both counts.
    pub fn clear(&mut self)
        ensures
            final(self).spec_items().len() == 0,
            final(self).spec_request_count() == 0,
            final(self).spec_response_count() == 0,
            final(self).consistent(),
    {
        self.items = Vec::new();
        self.request_count = 0;
        self.response_count = 0;
    }
}

/// The kinds of the entries, in order.
pub open spec fn kinds(items: Seq<StreamItem>) -> Seq<ItemKind> {
    items.map_values(|x: StreamItem| x.kind)
}

/// How many times `kind` occurs.
pub open spec fn count_kind(ks: Seq<ItemKind>, kind: ItemKind) -> nat
    decreases ks.len(),
{
    if ks.len() == 0 {
        0
    } else {
        count_kind(ks.drop_last(), kind) + if ks.last() == kind {
            1nat
        } else {
            0nat
        }
    }
}

/// Every entry is labelled with its kind and its number among the entries
/// of that kind up to it.
pub open spec fn numbered(items: Seq<StreamItem>) -> bool {
    forall|i: int|
        0 <= i < items.len() ==> (#[trigger] items[i]).label@ == item_label(
            items[i].kind,
            count_kind(kinds(items).take(i + 1), items[i].kind) as int,
        )
}

impl StreamState {
    /// The history is consistent: its counts are the numbers of requests and
    /// responses it holds, and its entries are numbered in order.
    pub open spec fn consistent(&self) -> bool {
        &&& self.spec_request_count() == count_kind(kinds(self.spec_items()), ItemKind::Request)
        &&& self.spec_response_count() == count_kind(kinds(self.spec_items()), ItemKind::Response)
        &&& numbered(self.spec_items())
    }
}

/// Adding an entry labelled with the next number of its kind keeps the
/// entries numbered, and counts one more of that kind.
pub proof fn law_add_keeps_numbering(before: Seq<StreamItem>, after: Seq<StreamItem>, kind: ItemKind)
    requires
        numbered(before),
        pushed_folded(before, after),
        after.last().kind == kind,
        after.last().label@ == item_label(kind, count_kind(kinds(before), kind) + 1int),
    ensures
        numbered(after),
        count_kind(kinds(after), kind) == count_kind(kinds(before), kind) + 1,
        forall|other: ItemKind| other != kind ==> count_kind(kinds(after), other) == count_kind(kinds(before), other),
{
    assert(kinds(after).drop_last() =~= kinds(before));
    assert(kinds(after).take(after.len() as int) =~= kinds(after));
    assert forall|i: int| 0 <= i < after.len() implies (#[trigger] after[i]).label@ == item_label(
        after[i].kind,
        count_kind(kinds(after).take(i + 1), after[i].kind) as int,
    ) by {
        if i < before.len() {
            assert(kinds(after).take(i + 1) =~= kinds(before).take(i + 1));
            assert(before[i].label@ == item_label(before[i].kind, count_kind(kinds(before).take(i + 1), before[i].kind) as int));
        } else {
            assert(kinds(after).take(i + 1) =~= kinds(after));
        }
    }
}

/// `after` is `before` with one entry more at the end, every earlier entry
/// folded and otherwise unchanged.
pub open spec fn pushed_folded(before: Seq<StreamItem>, after: Seq<StreamItem>) -> bool {
    &&& after.len() == before.len() + 1
    &&& forall|i: int|
        0 <= i < before.len() ==> {
            let a = #[trigger] after[i];
            let b = before[i];
            &&& !a.expanded
            &&& a.kind == b.kind
            &&& a.label@ == b.label@
            &&& a.body@ == b.body@
            &&& a.duration@ == b.duration@
        }
}

} // verus!
