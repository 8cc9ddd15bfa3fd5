//! The command that commits virtual checkouts.

use crate::commit::CommitOutcome;
use crate::desired::entry::{DesiredEntry, MaterializationIntent};
use crate::text;
use crate::text::{concat3, is_blank};
use vstd::prelude::*;

verus! {

/// The arguments of the command.
#[derive(Debug, PartialEq, Eq)]
pub struct Params {
    pub name: Option<String>,
    pub root: Option<String>,
    pub message: Option<String>,
    pub no_prompt: bool,
}

/// The entries up to `n` that are virtual checkouts.
pub open spec fn checkouts(entries: Seq<DesiredEntry>, n: nat) -> Seq<int>
    decreases n,
{
    if n == 0 {
        Seq::empty()
    } else {
        let before = checkouts(entries, (n - 1) as nat);
        if entries[n - 1].intent is VirtualCheckout {
            before.push(n - 1)
        } else {
            before
        }
    }
}

/// Positions as integers.
pub open spec fn positions(v: Seq<usize>) -> Seq<int> {
    v.map_values(|i: usize| i as int)
}

/// The positions of the virtual checkouts among the entries of the overlay `name`;
/// an error where there are none.
pub fn checkout_entries(entries: &Vec<DesiredEntry>, name: &str) -> (r: Result<Vec<usize>, String>)
    ensures
        ({
            let all = checkouts(entries@, entries@.len());
            match r {
                Ok(v) => all.len() > 0 && positions(v@) == all,
                Err(e) => all.len() == 0 && e@ == "overlay '"@ + name@
                    + "' is not checkout-materialized (no `checkout` materialization rule applies) \u{2014} nothing for `over commit` to do"@,
            }
        }),
{
    let mut v: Vec<usize> = Vec::new();
    let mut i: usize = 0;
    assert(positions(v@) =~= Seq::<int>::empty());
    while i < entries.len()
        invariant
            i <= entries@.len(),
            positions(v@) == checkouts(entries@, i as nat),
        decreases entries@.len() - i,
    {
        let ghost before = v@;
        match &entries[i].intent {
            MaterializationIntent::VirtualCheckout => {
                v.push(i);
                assert(positions(v@) =~= positions(before).push(i as int));
            },
            _ => {},
        }
        i = i + 1;
    }
    assert(positions(v@).len() == v@.len());
    if v.len() == 0 {
        return Err(
            concat3(
                "overlay '",
                name,
                "' is not checkout-materialized (no `checkout` materialization rule applies) \u{2014} nothing for `over commit` to do",
            ),
        );
    }
    Ok(v)
}

/// Where the message of a commit comes from.
#[derive(Debug, PartialEq, Eq)]
pub enum MessageSource {
    /// From the command line.
    Given(String),
    /// From the number of changed files.
    Default,
    /// From the user.
    Ask,
}

/// Where the message of a commit comes from: a given message wins, and nobody is
/// asked where that is not wanted.
pub fn message_source(args: &Params) -> (r: MessageSource)
    ensures
        match r {
            MessageSource::Given(m) => args.message is Some && m@ == args.message->0@,
            MessageSource::Default => args.message is None && args.no_prompt,
            MessageSource::Ask => args.message is None && !args.no_prompt,
        },
{
    if let Some(m) = &args.message {
        MessageSource::Given(m.clone())
    } else if args.no_prompt {
        MessageSource::Default
    } else {
        MessageSource::Ask
    }
}

/// Whether a text holds nothing but white space.
pub open spec fn blank(s: Seq<char>) -> bool {
    forall|i: int| 0 <= i < s.len() ==> text::is_white(#[trigger] s[i])
}

/// The message for a commit: a given one; none where nobody is asked or where the
/// `answer` is blank; else the answer as it stands.
pub fn resolve_message(args: &Params, answer: Option<String>) -> (r: Option<String>)
    ensures
        text::opt_text(r) == if args.message is Some {
            text::opt_text(args.message)
        } else if args.no_prompt || answer is None || blank(answer->0@) {
            None
        } else {
            text::opt_text(answer)
        },
{
    match message_source(args) {
        MessageSource::Given(m) => Some(m),
        MessageSource::Default => None,
        MessageSource::Ask => match answer {
            Some(a) => if is_blank(a.as_str()) {
                None
            } else {
                Some(a)
            },
            None => None,
        },
    }
}

/// Whether one of the first `n` outcomes needs the user.
pub open spec fn any_blocked(outcomes: Seq<CommitOutcome>) -> bool {
    exists|i: int| 0 <= i < outcomes.len() && #[trigger] outcomes[i] is Blocked
}

/// The error of the command: that a checkout is blocked.
pub fn failure(outcomes: &Vec<CommitOutcome>) -> (r: Option<String>)
    ensures
        match r {
            Some(e) => any_blocked(outcomes@) && e@
                == "one or more virtual checkouts have conflicting files \u{2014} resolve them manually, then re-run `over commit`"@,
            None => !any_blocked(outcomes@),
        },
{
    let mut i: usize = 0;
    while i < outcomes.len()
        invariant
            i <= outcomes@.len(),
            forall|k: int| 0 <= k < i ==> !(#[trigger] outcomes@[k] is Blocked),
        decreases outcomes@.len() - i,
    {
        if outcomes[i].needs_attention() {
            assert(outcomes@[i as int] is Blocked);
            return Some(
                "one or more virtual checkouts have conflicting files \u{2014} resolve them manually, then re-run `over commit`".to_owned(),
            );
        }
        i = i + 1;
    }
    None
}

/// The entries that are committed are those that are checked out, each once, in the
/// order in which they are desired.
pub proof fn checked_out_entries_are_committed(entries: Seq<DesiredEntry>, n: nat)
    requires
        n <= entries.len(),
    ensures
        forall|i: int|
            #[trigger] checkouts(entries, n).contains(i) <==> 0 <= i < n
                && entries[i].intent is VirtualCheckout,
        forall|a: int, b: int|
            0 <= a < b < checkouts(entries, n).len() ==> #[trigger] checkouts(entries, n)[a]
                < #[trigger] checkouts(entries, n)[b],
    decreases n,
{
    if n > 0 {
        let before = checkouts(entries, (n - 1) as nat);
        let all = checkouts(entries, n);
        checked_out_entries_are_committed(entries, (n - 1) as nat);
        assert forall|a: int| 0 <= a < before.len() implies #[trigger] before[a] < n - 1 by {
            assert(before.contains(before[a]));
        }
        assert forall|i: int|
            #[trigger] all.contains(i) <==> 0 <= i < n && entries[i].intent is VirtualCheckout by {
            if before.contains(i) {
                let k = choose|k: int| 0 <= k < before.len() && before[k] == i;
                assert(all[k] == i);
            }
            if i == n - 1 && entries[i].intent is VirtualCheckout {
                assert(all[before.len() as int] == i);
            }
            if all.contains(i) {
                let k = choose|k: int| 0 <= k < all.len() && all[k] == i;
                if k < before.len() {
                    assert(before[k] == i);
                }
            }
        }
    }
}

/// Committing fails where a checkout was held up, whatever became of the others.
pub proof fn one_blocked_checkout_fails(outcomes: Seq<CommitOutcome>, i: int)
    requires
        0 <= i < outcomes.len(),
    ensures
        outcomes[i] is Blocked ==> any_blocked(outcomes),
        (forall|k: int| 0 <= k < outcomes.len() && k != i ==> !(#[trigger] outcomes[k] is Blocked))
            ==> any_blocked(outcomes) == outcomes[i] is Blocked,
{
}

/// An answer is blank where it is empty or holds nothing but white space.
pub proof fn answers_with_a_letter_are_taken(s: Seq<char>, i: int)
    ensures
        blank(Seq::<char>::empty()),
        0 <= i < s.len() && !text::is_white(s[i]) ==> !blank(s),
{
}

} // verus!
