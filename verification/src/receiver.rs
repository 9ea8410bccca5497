//! The collection of the ids of the jobs that have a missing image, reported
//! in any order and any number of times, listed once each in ascending order.

use vstd::prelude::*;
use crate::text::{decimal, u32_decimal};

verus! {

/// Each element of `s` is smaller than the next.
pub open spec fn strictly_increasing(s: Seq<u32>) -> bool {
    forall|i: int, j: int| 0 <= i < j < s.len() ==> s[i] < s[j]
}

/// The ids of `s`, ascending, each once (for a finite `s`, the one such list).
pub open spec fn ascending(s: Set<u32>) -> Seq<u32> {
    choose|l: Seq<u32>| strictly_increasing(l) && l.to_set() == s
}

/// What the receiving loop gets from the channel of reported ids.
#[derive(Clone, Copy, Debug, PartialEq, Eq, Structural)]
pub enum ReceiverEvent {
    /// A reported id.
    Received(u32),
    /// Nothing has been sent yet.
    Empty,
    /// Every sender is gone.
    Disconnected,
}

/// What the receiving loop does next.
#[derive(Clone, Copy, Debug, PartialEq, Eq, Structural)]
pub enum ReceiverAction {
    /// Keep receiving.
    Continue,
    /// Stop and print the list.
    Finish,
}

/// The ids reported so far, kept in ascending order without repetition.
pub struct MissingIds {
    ids: Vec<u32>,
}

impl View for MissingIds {
    type V = Set<u32>;

    closed spec fn view(&self) -> Set<u32> {
        self.ids@.to_set()
    }
}

impl MissingIds {
    #[verifier::type_invariant]
    closed spec fn well_formed(self) -> bool {
        strictly_increasing(self.ids@)
    }

    /// No id reported yet.
    pub fn new() -> (m: Self)
        ensures
            m@ == Set::<u32>::empty(),
    {
        let m = MissingIds { ids: Vec::new() };
        assert(m.ids@.to_set() =~= Set::<u32>::empty());
        m
    }

    /// Adds `id`; true if it was not there yet.
    pub fn insert(&mut self, id: u32) -> (added: bool)
        ensures
            added == !old(self)@.contains(id),
            final(self)@ == old(self)@.insert(id),
    {
        proof {
            use_type_invariant(&*self);
        }
        let n = self.ids.len();
        let mut i: usize = 0;
        while i < n
            invariant
                n == self.ids@.len(),
                i <= n,
                strictly_increasing(self.ids@),
                forall|j: int| 0 <= j < i ==> self.ids@[j] < id,
            ensures
                n == self.ids@.len(),
                i <= n,
                strictly_increasing(self.ids@),
                forall|j: int| 0 <= j < i ==> self.ids@[j] < id,
                i < n ==> self.ids@[i as int] > id,
            decreases n - i,
        {
            let x = self.ids[i];
            if x == id {
                assert(self.ids@.to_set().contains(id)) by {
                    assert(self.ids@[i as int] == id);
                }
                assert(self.ids@.to_set() =~= self.ids@.to_set().insert(id));
                return false;
            }
            if x > id {
                break;
            }
            i = i + 1;
        }
        let ghost before = self.ids@;
        assert(forall|j: int| i <= j < n ==> before[j] > id) by {
            assert forall|j: int| i <= j < n implies before[j] > id by {
                if i < n {
                    assert(before[i as int] > id);
                    if j > i {
                        assert(before[i as int] < before[j]);
                    }
                }
            }
        }
        assert(!before.to_set().contains(id)) by {
            if before.to_set().contains(id) {
                let k = choose|k: int| 0 <= k < before.len() && before[k] == id;
                assert(k < i || k >= i);
            }
        }
        let ghost after = before.insert(i as int, id);
        let mut ids = Vec::new();
        std::mem::swap(&mut ids, &mut self.ids);
        ids.insert(i, id);
        assert(ids@ == after);
        assert(strictly_increasing(after)) by {
            assert forall|a: int, b: int| 0 <= a < b < after.len() implies after[a] < after[b] by {
                if b < i {
                    assert(after[a] == before[a] && after[b] == before[b]);
                } else if b == i {
                    assert(after[a] == before[a]);
                } else if a < i {
                    assert(after[a] == before[a] && after[b] == before[b - 1]);
                } else if a == i {
                    assert(after[b] == before[b - 1]);
                } else {
                    assert(after[a] == before[a - 1] && after[b] == before[b - 1]);
                }
            }
        }
        assert(after.to_set() =~= before.to_set().insert(id)) by {
            assert forall|x: u32| after.to_set().contains(x) implies before.to_set().insert(x).contains(
                x,
            ) by {}
            assert forall|x: u32| #[trigger] after.to_set().contains(x) <==> before.to_set().insert(
                id,
            ).contains(x) by {
                if after.to_set().contains(x) {
                    let k = choose|k: int| 0 <= k < after.len() && after[k] == x;
                    if k < i {
                        assert(before[k] == x);
                    } else if k > i {
                        assert(before[k - 1] == x);
                    }
                }
                if before.to_set().insert(id).contains(x) {
                    if x == id {
                        assert(after[i as int] == id);
                    } else {
                        let k = choose|k: int| 0 <= k < before.len() && before[k] == x;
                        if k < i {
                            assert(after[k] == x);
                        } else {
                            assert(after[k + 1] == x);
                        }
                    }
                }
            }
        }
        self.ids = ids;
        true
    }

    /// The ids, ascending, each once.
    pub fn sorted(&self) -> (ids: Vec<u32>)
        ensures
            strictly_increasing(ids@),
            ids@.to_set() == self@,
            ids@ == ascending(self@),
    {
        proof {
            use_type_invariant(self);
        }
        let ids = self.ids.clone();
        proof {
            assert(ids@ =~= self.ids@);
            let l = ascending(self@);
            assert(strictly_increasing(l) && l.to_set() == self@);
            lemma_listing_unique(l, ids@);
        }
        ids
    }

    /// Takes in one event of the receiving loop: a reported id is added, and
    /// the loop finishes once every sender is gone.
    pub fn on_event(&mut self, event: ReceiverEvent) -> (action: ReceiverAction)
        ensures
            event matches ReceiverEvent::Received(id) ==> final(self)@ == old(self)@.insert(id)
                && action == ReceiverAction::Continue,
            event == ReceiverEvent::Empty ==> final(self)@ == old(self)@ && action
                == ReceiverAction::Continue,
            event == ReceiverEvent::Disconnected ==> final(self)@ == old(self)@ && action
                == ReceiverAction::Finish,
    {
        match event {
            ReceiverEvent::Received(id) => {
                self.insert(id);
                ReceiverAction::Continue
            },
            ReceiverEvent::Empty => ReceiverAction::Continue,
            ReceiverEvent::Disconnected => ReceiverAction::Finish,
        }
    }

    /// The ids as the debug form of a list prints them: ascending, written
    /// in decimal, separated by `", "`, between brackets.
    pub fn render(&self) -> (text: String)
        ensures
            text@ == list_text(ascending(self@)),
    {
        let ids = self.sorted();
        let text = render_list(&ids);
        text
    }
}

/// The decimal forms of `ids`, separated by `", "`.
pub open spec fn joined(ids: Seq<u32>) -> Seq<char>
    decreases ids.len(),
{
    if ids.len() == 0 {
        Seq::empty()
    } else if ids.len() == 1 {
        decimal(ids[0] as nat)
    } else {
        joined(ids.drop_last()) + ", "@ + decimal(ids.last() as nat)
    }
}

/// `ids` as the debug form of a list prints them: `[1, 2, 3]`.
pub open spec fn list_text(ids: Seq<u32>) -> Seq<char> {
    "["@ + joined(ids) + "]"@
}

/// Writes `ids` as the debug form of a list prints them.
pub fn render_list(ids: &Vec<u32>) -> (text: String)
    ensures
        text@ == list_text(ids@),
{
    let mut inner = String::new();
    let n = ids.len();
    for i in 0..n
        invariant
            n == ids@.len(),
            inner@ == joined(ids@.take(i as int)),
    {
        let d = u32_decimal(ids[i]);
        if i > 0 {
            inner.append(", ");
        }
        inner.append(d.as_str());
        assert(ids@.take(i + 1).drop_last() =~= ids@.take(i as int));
        if i == 0 {
            assert(inner@ =~= joined(ids@.take(1)));
        }
    }
    assert(ids@.take(n as int) =~= ids@);
    let mut text = String::from_str("[");
    text.append(inner.as_str());
    text.append("]");
    text
}

/// Two ascending lists without repetition that hold the same ids are the
/// same list: the printed list depends only on which ids were reported, not
/// on their order or on how often each was reported.
pub proof fn lemma_listing_unique(a: Seq<u32>, b: Seq<u32>)
    requires
        strictly_increasing(a),
        strictly_increasing(b),
        a.to_set() == b.to_set(),
    ensures
        a == b,
    decreases a.len() + b.len(),
{
    if a.len() == 0 || b.len() == 0 {
        if a.len() > 0 {
            assert(a.to_set().contains(a[0]));
        }
        if b.len() > 0 {
            assert(b.to_set().contains(b[0]));
        }
        assert(a =~= b);
    } else {
        // The smallest elements agree.
        assert(a.to_set().contains(a[0]));
        assert(b.to_set().contains(b[0]));
        let ka = choose|k: int| 0 <= k < b.len() && b[k] == a[0];
        let kb = choose|k: int| 0 <= k < a.len() && a[k] == b[0];
        if ka > 0 {
            assert(b[0] < b[ka]);
        }
        if kb > 0 {
            assert(a[0] < a[kb]);
        }
        assert(a[0] == b[0]);
        let ra = a.drop_first();
        let rb = b.drop_first();
        assert(ra.to_set() =~= rb.to_set()) by {
            assert forall|x: u32| #[trigger] ra.to_set().contains(x) implies rb.to_set().contains(x) by {
                let k = choose|k: int| 0 <= k < ra.len() && ra[k] == x;
                assert(a[k + 1] == x);
                assert(a[0] < a[k + 1]);
                assert(a.to_set().contains(x));
                let m = choose|m: int| 0 <= m < b.len() && b[m] == x;
                assert(m > 0);
                assert(rb[m - 1] == x);
            }
            assert forall|x: u32| #[trigger] rb.to_set().contains(x) implies ra.to_set().contains(x) by {
                let k = choose|k: int| 0 <= k < rb.len() && rb[k] == x;
                assert(b[k + 1] == x);
                assert(b[0] < b[k + 1]);
                assert(b.to_set().contains(x));
                let m = choose|m: int| 0 <= m < a.len() && a[m] == x;
                assert(m > 0);
                assert(ra[m - 1] == x);
            }
        }
        lemma_listing_unique(ra, rb);
        assert(a =~= b) by {
            assert forall|i: int| 0 <= i < a.len() implies a[i] == b[i] by {
                if i > 0 {
                    assert(a[i] == ra[i - 1]);
                    assert(b[i] == rb[i - 1]);
                }
            }
        }
    }
}

/// The text of a list: `[]` when empty, `[n]` for one id, and for a longer
/// list the text of all but its last id with `", "` and the decimal form of
/// the last id put before the closing bracket; so every id of the list is
/// written, in order.
pub proof fn lemma_list_text(ids: Seq<u32>, x: u32)
    ensures
        list_text(Seq::<u32>::empty()) == "["@ + "]"@,
        list_text(seq![x]) == "["@ + decimal(x as nat) + "]"@,
        ids.len() > 0 ==> list_text(ids.push(x)) == list_text(ids).drop_last() + ", "@ + decimal(
            x as nat,
        ) + "]"@,
{
    reveal_strlit("]");
    assert(joined(Seq::<u32>::empty()) =~= Seq::<char>::empty());
    assert(list_text(Seq::<u32>::empty()) =~= "["@ + "]"@);
    assert(seq![x][0] == x);
    if ids.len() > 0 {
        let longer = ids.push(x);
        assert(longer.drop_last() =~= ids);
        assert(longer.last() == x);
        assert(joined(longer) == joined(ids) + ", "@ + decimal(x as nat));
        assert(list_text(ids).drop_last() =~= "["@ + joined(ids));
        assert(list_text(longer) =~= list_text(ids).drop_last() + ", "@ + decimal(x as nat)
            + "]"@);
    }
}

/// `d` stands in `t` from position `k` on.
pub open spec fn occurs_at(t: Seq<char>, d: Seq<char>, k: int) -> bool {
    0 <= k && k + d.len() <= t.len() && t.subrange(k, k + d.len()) == d
}

/// The text of a list writes the decimal form of each of its ids.
pub proof fn lemma_list_text_has_ids(ids: Seq<u32>, i: int)
    requires
        0 <= i < ids.len(),
    ensures
        exists|k: int| #[trigger] occurs_at(list_text(ids), decimal(ids[i] as nat), k),
{
    let d = decimal(ids[i] as nat);
    lemma_joined_has_ids(ids, i);
    let k = choose|k: int| #[trigger] occurs_at(joined(ids), d, k);
    let t = list_text(ids);
    reveal_strlit("[");
    reveal_strlit("]");
    assert(t == "["@ + joined(ids) + "]"@);
    assert(occurs_at(joined(ids), d, k));
    assert(t.subrange(k + 1, k + 1 + d.len()) =~= joined(ids).subrange(k, k + d.len()));
    assert(occurs_at(t, d, k + 1));
}

proof fn lemma_joined_has_ids(ids: Seq<u32>, i: int)
    requires
        0 <= i < ids.len(),
    ensures
        exists|k: int| #[trigger] occurs_at(joined(ids), decimal(ids[i] as nat), k),
    decreases ids.len(),
{
    let d = decimal(ids[i] as nat);
    if ids.len() == 1 {
        assert(joined(ids) == d);
        assert(joined(ids).subrange(0, d.len() as int) =~= d);
        assert(occurs_at(joined(ids), d, 0));
    } else if i == ids.len() - 1 {
        let j = joined(ids);
        let pre = joined(ids.drop_last()) + ", "@;
        assert(j == pre + d);
        assert(j.subrange(pre.len() as int, (pre.len() + d.len()) as int) =~= d);
        assert(occurs_at(j, d, pre.len() as int));
    } else {
        let rest = ids.drop_last();
        assert(rest[i] == ids[i]);
        lemma_joined_has_ids(rest, i);
        let k = choose|k: int| #[trigger] occurs_at(joined(rest), d, k);
        let j = joined(ids);
        assert(j == joined(rest) + ", "@ + decimal(ids.last() as nat));
        assert(j.subrange(k, k + d.len()) =~= joined(rest).subrange(k, k + d.len()));
        assert(occurs_at(j, d, k));
    }
}

} // verus!
