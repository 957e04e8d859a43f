use vstd::prelude::*;

use crate::inbox::{decimal, decimal_string, Folder, Message, UIDRange};

verus! {

broadcast use vstd::string::group_string_axioms;

/// The IMAP session states that matter here (RFC 3501, section 3).
#[derive(Debug, Clone, Copy, PartialEq, Eq)]
pub enum InboxState {
    Authenticated,
    Selected,
}

/// Whether `folder` must be selected before working in it: unless it is the
/// folder that is selected now.
pub fn needs_select(state: InboxState, selected: &Option<Folder>, folder: &Folder) -> (b: bool)
    requires
        state == InboxState::Selected ==> selected is Some,
    ensures
        b == !(state == InboxState::Selected && selected.unwrap().name@ == folder.name@),
{
    match state {
        InboxState::Selected => match selected {
            Some(f) => f.name != folder.name,
            None => true,
        },
        InboxState::Authenticated => true,
    }
}

/// What to do with the stored UID validity of a folder on selecting it.
#[derive(Debug, Clone, Copy, PartialEq, Eq)]
pub enum UidValidityAction {
    /// Nothing is stored yet: store the folder's UID validity.
    Insert,
    /// The stored validity still holds.
    Keep,
    /// The validity changed: store the new one and forget the last seen UID.
    Reset,
}

/// Compares the stored UID validity of a folder with the server's.
pub fn uid_validity_action(stored: Option<u32>, current: u32) -> (a: UidValidityAction)
    ensures
        a == match stored {
            None => UidValidityAction::Insert,
            Some(v) => if v == current {
                UidValidityAction::Keep
            } else {
                UidValidityAction::Reset
            },
        },
{
    match stored {
        None => UidValidityAction::Insert,
        Some(v) => if v == current {
            UidValidityAction::Keep
        } else {
            UidValidityAction::Reset
        },
    }
}

/// One end of a UID range as IMAP writes it.
pub open spec fn range_end_text(r: UIDRange) -> Seq<char> {
    match r {
        UIDRange::UID(u) => decimal(u as nat),
        UIDRange::Any => "*"@,
    }
}

fn range_end_string(r: UIDRange) -> (s: String)
    ensures
        s@ == range_end_text(r),
{
    match r {
        UIDRange::UID(u) => decimal_string(u),
        UIDRange::Any => "*".to_owned(),
    }
}

/// The IMAP sequence set `start:end`.
pub fn uid_range(start: UIDRange, end: UIDRange) -> (s: String)
    ensures
        s@ == range_end_text(start) + ":"@ + range_end_text(end),
{
    let mut s = range_end_string(start);
    s.append(":");
    let e = range_end_string(end);
    s.append(e.as_str());
    s
}

/// The IMAP sequence set of every UID after `last_seen`.
pub fn uids_after(last_seen: u32) -> (s: String)
    requires
        last_seen < u32::MAX,
    ensures
        s@ == decimal((last_seen + 1) as nat) + ":*"@,
{
    let mut s = decimal_string(last_seen + 1);
    s.append(":*");
    s
}

/// Whether a message came after the last seen UID.
pub open spec fn is_after(last_seen: u32) -> spec_fn(Message) -> bool {
    |m: Message| m.uid > last_seen
}

/// The messages whose UID is above `last_seen`, in their order. A sequence
/// set `n:*` also names the highest UID of the folder when that is below
/// `n`, so what it fetches is passed through this.
pub fn messages_after(messages: Vec<Message>, last_seen: u32) -> (r: Vec<Message>)
    ensures
        r@ == messages@.filter(is_after(last_seen)),
{
    let ghost all = messages@;
    let mut rest = messages;
    let mut r: Vec<Message> = Vec::new();
    let ghost mut k: int = 0;
    while rest.len() > 0
        invariant
            0 <= k <= all.len(),
            rest@ == all.skip(k),
            r@ == all.take(k).filter(is_after(last_seen)),
        decreases rest@.len(),
    {
        let m = rest.remove(0);
        proof {
            assert(m == all[k]);
            assert(all.take(k + 1) =~= all.take(k).push(m));
            all.take(k).lemma_filter_push(m, is_after(last_seen));
            assert(rest@ =~= all.skip(k + 1));
            k = k + 1;
        }
        if m.uid > last_seen {
            r.push(m);
        }
    }
    proof {
        assert(all.take(k) =~= all);
    }
    r
}

/// Successive polls give no message twice: once the last seen UID has
/// moved up to at least every UID that one poll gave, the messages that the
/// next poll keeps carry none of those UIDs.
pub proof fn lemma_polls_do_not_repeat(
    first: Seq<Message>,
    last_seen: u32,
    next_seen: u32,
    second: Seq<Message>,
)
    requires
        forall|i: int|
            0 <= i < first.filter(is_after(last_seen)).len() ==> (#[trigger] first.filter(
                is_after(last_seen),
            )[i]).uid <= next_seen,
    ensures
        forall|i: int, j: int|
            0 <= i < first.filter(is_after(last_seen)).len() && 0 <= j < second.filter(
                is_after(next_seen),
            ).len() ==> (#[trigger] first.filter(is_after(last_seen))[i]).uid != (
            #[trigger] second.filter(is_after(next_seen))[j]).uid,
{
    assert forall|i: int, j: int|
        0 <= i < first.filter(is_after(last_seen)).len() && 0 <= j < second.filter(
            is_after(next_seen),
        ).len() implies (#[trigger] first.filter(is_after(last_seen))[i]).uid != (
    #[trigger] second.filter(is_after(next_seen))[j]).uid by {
        second.lemma_filter_pred(is_after(next_seen), j);
    }
}

/// Whether any of the UIDs is above `last_seen`.
pub fn any_after(uids: &Vec<u32>, last_seen: u32) -> (b: bool)
    ensures
        b <==> exists|i: int| 0 <= i < uids@.len() && #[trigger] uids@[i] > last_seen,
{
    let mut i: usize = 0;
    while i < uids.len()
        invariant
            i <= uids@.len(),
            forall|j: int| 0 <= j < i ==> #[trigger] uids@[j] <= last_seen,
        decreases uids@.len() - i,
    {
        if uids[i] > last_seen {
            return true;
        }
        i = i + 1;
    }
    false
}

/// The UID a message stands for in the count of seen messages: its own
/// while it is valid, `default` otherwise.
pub open spec fn seen_uid(m: Message, default: u32) -> u32 {
    if m.valid {
        m.uid
    } else {
        default
    }
}

/// The highest UID among the messages (counting an invalid message as
/// `default`), or none for no messages.
pub fn highest_uid(messages: &Vec<Message>, default: u32) -> (r: Option<u32>)
    ensures
        r is None <==> messages@.len() == 0,
        r matches Some(h) ==> (exists|i: int|
            0 <= i < messages@.len() && h == seen_uid(#[trigger] messages@[i], default)) && forall|
            i: int,
        | 0 <= i < messages@.len() ==> seen_uid(#[trigger] messages@[i], default) <= h,
{
    let mut best: Option<u32> = None;
    let mut i: usize = 0;
    while i < messages.len()
        invariant
            i <= messages@.len(),
            best is None <==> i == 0,
            best matches Some(h) ==> (exists|k: int|
                0 <= k < i && h == seen_uid(#[trigger] messages@[k], default)) && forall|k: int|
                0 <= k < i ==> seen_uid(#[trigger] messages@[k], default) <= h,
        decreases messages@.len() - i,
    {
        let u = match messages[i].uid() {
            Some(u) => u,
            None => default,
        };
        assert(u == seen_uid(messages@[i as int], default));
        best = match best {
            Some(h) => if u > h {
                Some(u)
            } else {
                Some(h)
            },
            None => Some(u),
        };
        i = i + 1;
    }
    best
}

// ---------------------------------------------------------------------------
// The most recent messages
// ---------------------------------------------------------------------------

/// `r` is the `n` highest UIDs of `uids`, in ascending order: strictly
/// ascending UIDs of the input, at most `n` of them, and every UID left out
/// is lower than all that were taken, which happens only when `n` were
/// taken.
pub open spec fn is_top_n(uids: Seq<u32>, n: nat, r: Seq<u32>) -> bool {
    &&& forall|i: int, j: int| 0 <= i < j < r.len() ==> r[i] < r[j]
    &&& forall|i: int| 0 <= i < r.len() ==> uids.contains(#[trigger] r[i])
    &&& r.len() <= n
    &&& forall|x: u32|
        uids.contains(x) && !r.contains(x) ==> r.len() == n && (n > 0 ==> x < r[0])
}

/// The highest UID of `uids` below `bound` (or the highest, without a bound).
fn max_below(uids: &Vec<u32>, bound: Option<u32>) -> (r: Option<u32>)
    ensures
        r matches Some(m) ==> uids@.contains(m) && (bound matches Some(b) ==> m < b),
        forall|x: u32|
            uids@.contains(x) && (bound matches Some(b) ==> x < b) ==> (r matches Some(m) && x <= m),
{
    let mut best: Option<u32> = None;
    let mut i: usize = 0;
    while i < uids.len()
        invariant
            i <= uids@.len(),
            best matches Some(m) ==> uids@.contains(m) && (bound matches Some(b) ==> m < b),
            forall|k: int|
                0 <= k < i && (bound matches Some(b) ==> uids@[k] < b) ==> (best matches Some(m)
                    && #[trigger] uids@[k] <= m),
        decreases uids@.len() - i,
    {
        let x = uids[i];
        let below = match bound {
            Some(b) => x < b,
            None => true,
        };
        if below {
            best = match best {
                Some(m) => if x > m {
                    Some(x)
                } else {
                    Some(m)
                },
                None => Some(x),
            };
        }
        i = i + 1;
    }
    proof {
        assert forall|x: u32|
            uids@.contains(x) && (bound matches Some(b) ==> x < b) implies (best matches Some(m)
            && x <= m) by {
            let k = choose|k: int| 0 <= k < uids@.len() && uids@[k] == x;
            assert(uids@[k] == x);
        }
    }
    best
}

/// The `n` highest of the (distinct) UIDs, in ascending order.
pub fn top_n_uids(uids: &Vec<u32>, n: u32) -> (r: Vec<u32>)
    requires
        uids@.no_duplicates(),
    ensures
        is_top_n(uids@, n as nat, r@),
{
    // The UIDs taken so far, from the highest down.
    let mut desc: Vec<u32> = Vec::new();
    let mut bound: Option<u32> = None;
    let mut done = false;
    while desc.len() < n as usize && !done
        invariant
            desc@.len() <= n,
            done ==> forall|x: u32| uids@.contains(x) ==> desc@.contains(x),
            forall|i: int, j: int| 0 <= i < j < desc@.len() ==> desc@[i] > desc@[j],
            forall|i: int| 0 <= i < desc@.len() ==> uids@.contains(#[trigger] desc@[i]),
            bound is None <==> desc@.len() == 0,
            bound matches Some(b) ==> b == desc@.last(),
            forall|x: u32|
                uids@.contains(x) && (bound matches Some(b) && x >= b) ==> desc@.contains(x),
        decreases n - desc@.len() + if done {
            0int
        } else {
            1int
        },
    {
        match max_below(uids, bound) {
            Some(m) => {
                let ghost before = desc@;
                desc.push(m);
                bound = Some(m);
                proof {
                    assert forall|x: u32| uids@.contains(x) && x >= m implies desc@.contains(x) by {
                        if x == m {
                            assert(desc@[desc@.len() - 1] == m);
                        } else {
                            assert(before.contains(x));
                            let k = choose|k: int| 0 <= k < before.len() && before[k] == x;
                            assert(desc@[k] == x);
                        }
                    }
                    assert forall|i: int| 0 <= i < desc@.len() implies uids@.contains(
                        #[trigger] desc@[i],
                    ) by {
                        if i < before.len() {
                            assert(desc@[i] == before[i]);
                        }
                    }
                }
            },
            None => {
                proof {
                    assert forall|x: u32| uids@.contains(x) implies desc@.contains(x) by {
                        if let Some(b) = bound {
                            if x == b {
                                assert(desc@[desc@.len() - 1] == b);
                            }
                        }
                    }
                }
                done = true;
            },
        }
    }
    // Reverse into ascending order.
    let mut r: Vec<u32> = Vec::new();
    let mut k: usize = desc.len();
    while k > 0
        invariant
            k <= desc@.len(),
            r@.len() == desc@.len() - k,
            forall|i: int| 0 <= i < r@.len() ==> #[trigger] r@[i] == desc@[desc@.len() - 1 - i],
        decreases k,
    {
        k = k - 1;
        r.push(desc[k]);
    }
    proof {
        assert forall|x: u32| uids@.contains(x) && !r@.contains(x) implies r@.len() == n && (n > 0
            ==> x < r@[0]) by {
            if desc@.contains(x) {
                let k = choose|k: int| 0 <= k < desc@.len() && desc@[k] == x;
                assert(r@[desc@.len() - 1 - k] == x);
            }
            if n > 0 {
                assert(r@[0] == desc@[desc@.len() - 1]);
            }
        }
        assert forall|i: int| 0 <= i < r@.len() implies uids@.contains(#[trigger] r@[i]) by {
            assert(r@[i] == desc@[desc@.len() - 1 - i]);
        }
    }
    r
}

/// UIDs written in decimal and separated by commas.
pub open spec fn uid_list_text(v: Seq<u32>) -> Seq<char>
    decreases v.len(),
{
    if v.len() == 0 {
        seq![]
    } else if v.len() == 1 {
        decimal(v[0] as nat)
    } else {
        uid_list_text(v.drop_last()) + ","@ + decimal(v.last() as nat)
    }
}

/// The IMAP sequence set listing these UIDs.
pub fn uid_list(v: &Vec<u32>) -> (s: String)
    ensures
        s@ == uid_list_text(v@),
{
    let mut s = String::new();
    let mut i: usize = 0;
    while i < v.len()
        invariant
            i <= v@.len(),
            s@ == uid_list_text(v@.take(i as int)),
        decreases v@.len() - i,
    {
        proof {
            assert(v@.take(i + 1).drop_last() =~= v@.take(i as int));
        }
        if i > 0 {
            s.append(",");
        } else {
            assert(v@.take(1) =~= seq![v@[0]]);
            assert(s@ =~= Seq::<char>::empty());
        }
        let d = decimal_string(v[i]);
        s.append(d.as_str());
        i = i + 1;
    }
    proof {
        assert(v@.take(v@.len() as int) =~= v@);
    }
    s
}

} // verus!
