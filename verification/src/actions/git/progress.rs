//! How far a clone has come, as it is shown.

use crate::text;
use crate::text::{concat3, decimal_text, padded_number};
use vstd::prelude::*;

verus! {

/// What the transfer reports.
#[derive(Debug, Clone, Copy, PartialEq, Eq, Structural)]
pub struct CloneStats {
    pub total_objects: usize,
    pub indexed_objects: usize,
    pub received_objects: usize,
    pub total_deltas: usize,
    pub indexed_deltas: usize,
    pub received_bytes: usize,
}

/// What the checkout reports.
#[derive(Debug, PartialEq, Eq)]
pub struct CloneProgress {
    pub total: usize,
    pub current: usize,
    /// The file that is being written.
    pub path: Option<String>,
}

/// A report of a clone.
#[derive(Debug, PartialEq, Eq)]
pub enum CloneMessage {
    Stats(CloneStats),
    Progress(CloneProgress),
}

/// How far a clone has come.
#[derive(Debug, PartialEq, Eq)]
pub struct CloneState {
    pub stats: CloneStats,
    pub progress: CloneProgress,
}

/// A progress bar.
#[derive(Debug, PartialEq, Eq)]
pub struct Bar {
    pub length: u64,
    pub position: u64,
    pub message: String,
}

/// `part` of `whole` in percent, cut to an integer; nothing of nothing is 0.
pub open spec fn percent(part: nat, whole: nat) -> nat {
    if whole == 0 {
        0
    } else {
        100 * part / whole
    }
}

fn percentage(part: usize, whole: usize) -> (r: u64)
    requires
        100 * part <= u64::MAX,
    ensures
        r == percent(part as nat, whole as nat),
{
    if whole == 0 {
        0
    } else {
        let p: u64 = part as u64;
        let w: u64 = whole as u64;
        100 * p / w
    }
}

/// One count of another, in columns.
pub open spec fn share(part: nat, whole: nat, width: nat) -> Seq<char> {
    text::padded(text::decimal(part), width) + "/"@ + text::padded(text::decimal(whole), width)
}

fn share_text(part: usize, whole: usize, width: usize) -> (r: String)
    ensures
        r@ == share(part as nat, whole as nat, width as nat),
{
    concat3(
        padded_number(part as u64, width).as_str(),
        "/",
        padded_number(whole as u64, width).as_str(),
    )
}

impl CloneState {
    /// The state before any report.
    pub fn new() -> (r: Self)
        ensures
            r.stats == (CloneStats {
                total_objects: 0,
                indexed_objects: 0,
                received_objects: 0,
                total_deltas: 0,
                indexed_deltas: 0,
                received_bytes: 0,
            }),
            r.progress == (CloneProgress { total: 0, current: 0, path: None }),
    {
        CloneState {
            stats: CloneStats {
                total_objects: 0,
                indexed_objects: 0,
                received_objects: 0,
                total_deltas: 0,
                indexed_deltas: 0,
                received_bytes: 0,
            },
            progress: CloneProgress { total: 0, current: 0, path: None },
        }
    }

    /// Takes in a report.
    pub fn update(&mut self, message: CloneMessage)
        ensures
            *final(self) == match message {
                CloneMessage::Stats(s) => CloneState { stats: s, progress: old(self).progress },
                CloneMessage::Progress(p) => CloneState { stats: old(self).stats, progress: p },
            },
    {
        match message {
            CloneMessage::Stats(s) => {
                self.stats = s;
            },
            CloneMessage::Progress(p) => {
                self.progress = p;
            },
        }
    }

    /// The line that is shown while objects are received.
    pub open spec fn receiving(&self) -> Seq<char> {
        let s = self.stats;
        let total = s.total_objects as nat;
        "net "@ + text::padded(text::decimal(percent(s.received_objects as nat, total)), 3) + "% ("@ + text::padded(
            text::decimal((s.received_bytes / 1024) as nat),
            4,
        ) + " kb, "@ + share(s.received_objects as nat, total, 5) + ")  /  idx "@ + text::padded(
            text::decimal(percent(s.indexed_objects as nat, total)),
            3,
        ) + "% ("@ + share(s.indexed_objects as nat, total, 5) + ")  /  chk "@ + text::padded(
            text::decimal(percent(self.progress.current as nat, self.progress.total as nat)),
            3,
        ) + "% ("@ + share(self.progress.current as nat, self.progress.total as nat, 4) + ") "@
            + match self.progress.path {
            Some(p) => p@,
            None => Seq::empty(),
        } + "\r"@
    }

    /// The line that is shown once all objects are there.
    pub open spec fn resolving(&self) -> Seq<char> {
        "Resolving deltas "@ + text::decimal(self.stats.indexed_deltas as nat) + "/"@ + text::decimal(
            self.stats.total_deltas as nat,
        ) + "\r"@
    }

    /// The progress bar; none before the number of objects is known.
    pub fn update_bar(&self) -> (r: Option<Bar>)
        requires
            100 * self.stats.received_objects <= u64::MAX,
            100 * self.stats.indexed_objects <= u64::MAX,
            100 * self.progress.current <= u64::MAX,
        ensures
            match r {
                None => self.stats.total_objects == 0,
                Some(b) => self.stats.total_objects > 0 && b.length == self.stats.total_objects
                    && b.position == self.stats.indexed_objects && b.message@ == if
                self.stats.received_objects == self.stats.total_objects {
                    self.resolving()
                } else {
                    self.receiving()
                },
            },
    {
        let s = self.stats;
        if s.total_objects == 0 {
            return None;
        }
        let message = if s.received_objects == s.total_objects {
            let mut m = concat3(
                "Resolving deltas ",
                decimal_text(s.indexed_deltas as u64).as_str(),
                "/",
            );
            m.append(decimal_text(s.total_deltas as u64).as_str());
            m.append("\r");
            m
        } else {
            let network: u64 = percentage(s.received_objects, s.total_objects);
            let index: u64 = percentage(s.indexed_objects, s.total_objects);
            let checkout: u64 = percentage(self.progress.current, self.progress.total);
            let mut m = concat3("net ", padded_number(network, 3).as_str(), "% (");
            m.append(padded_number((s.received_bytes / 1024) as u64, 4).as_str());
            m.append(" kb, ");
            m.append(share_text(s.received_objects, s.total_objects, 5).as_str());
            m.append(")  /  idx ");
            m.append(padded_number(index, 3).as_str());
            m.append("% (");
            m.append(share_text(s.indexed_objects, s.total_objects, 5).as_str());
            m.append(")  /  chk ");
            m.append(padded_number(checkout, 3).as_str());
            m.append("% (");
            m.append(share_text(self.progress.current, self.progress.total, 4).as_str());
            m.append(") ");
            match &self.progress.path {
                Some(p) => m.append(p.as_str()),
                None => {
                    assert(m@ + Seq::<char>::empty() =~= m@);
                },
            }
            m.append("\r");
            m
        };
        Some(Bar { length: s.total_objects as u64, position: s.indexed_objects as u64, message })
    }
}

/// A part of a whole is told in hundredths: none as nothing, all as a hundred, and
/// never more than a hundred.
pub proof fn progress_is_told_in_hundredths(part: nat, whole: nat)
    requires
        part <= whole,
    ensures
        percent(part, whole) <= 100,
        percent(0, whole) == 0,
        whole > 0 ==> percent(whole, whole) == 100,
        whole > 0 ==> percent(part, whole) * whole <= 100 * part < (percent(part, whole) + 1) * whole,
{
    if whole > 0 {
        vstd::arithmetic::div_mod::lemma_fundamental_div_mod(100 * part as int, whole as int);
        vstd::arithmetic::div_mod::lemma_fundamental_div_mod(100 * whole as int, whole as int);
        assert(100 * part / whole <= 100) by (nonlinear_arith)
            requires
                part <= whole,
                whole > 0,
        ;
        assert(100 * whole / whole == 100) by (nonlinear_arith)
            requires
                whole > 0,
        ;
        let q = 100 * part / whole;
        assert(q * whole <= 100 * part < (q + 1) * whole) by (nonlinear_arith)
            requires
                whole > 0,
                q == 100 * part / whole,
        ;
        assert(0int / (whole as int) == 0) by (nonlinear_arith)
            requires
                whole > 0,
        ;
    }
}

/// A share is told as the part and the whole, in that order, each at its width.
pub proof fn shares_tell_part_and_whole(part: nat, whole: nat, width: nat)
    ensures
        text::padded(text::decimal(part), width).is_prefix_of(share(part, whole, width)),
        text::padded(text::decimal(whole), width).is_suffix_of(share(part, whole, width)),
        share(part, whole, width).len() == text::padded(text::decimal(part), width).len()
            + text::padded(text::decimal(whole), width).len() + 1,
        share(part, whole, width)[text::padded(text::decimal(part), width).len() as int] == '/',
{
    reveal_strlit("/");
    let a = text::padded(text::decimal(part), width);
    let b = text::padded(text::decimal(whole), width);
    let s = share(part, whole, width);
    assert(s.subrange(0, a.len() as int) =~= a);
    assert(s.subrange(s.len() - b.len(), s.len() as int) =~= b);
}

/// While objects come in it is told how many have come of all, with their size, how
/// many are indexed of all, how many files are checked out of all, and the last of
/// those files.
pub proof fn progress_tells_every_count(state: CloneState)
    ensures
        ({
            let s = state.stats;
            let p = state.progress;
            let net = "net "@ + hundredths(s.received_objects as nat, s.total_objects as nat)
                + "% ("@ + text::padded(text::decimal((s.received_bytes / 1024) as nat), 4)
                + " kb, "@ + share(s.received_objects as nat, s.total_objects as nat, 5);
            let idx = ")  /  idx "@ + hundredths(s.indexed_objects as nat, s.total_objects as nat)
                + "% ("@ + share(s.indexed_objects as nat, s.total_objects as nat, 5);
            let chk = ")  /  chk "@ + hundredths(p.current as nat, p.total as nat) + "% ("@ + share(
                p.current as nat,
                p.total as nat,
                4,
            );
            &&& p.path is Some ==> state.receiving() == net + idx + chk + ") "@ + p.path->0@
                + "\r"@
            &&& p.path is None ==> state.receiving() == net + idx + chk + ") "@ + "\r"@
        }),
        state.resolving() == "Resolving deltas "@ + text::decimal(
            state.stats.indexed_deltas as nat,
        ) + "/"@ + text::decimal(state.stats.total_deltas as nat) + "\r"@,
{
    let s = state.stats;
    let p = state.progress;
    let net = "net "@ + hundredths(s.received_objects as nat, s.total_objects as nat) + "% ("@
        + text::padded(text::decimal((s.received_bytes / 1024) as nat), 4) + " kb, "@ + share(
        s.received_objects as nat,
        s.total_objects as nat,
        5,
    );
    let idx = ")  /  idx "@ + hundredths(s.indexed_objects as nat, s.total_objects as nat) + "% ("@
        + share(s.indexed_objects as nat, s.total_objects as nat, 5);
    let chk = ")  /  chk "@ + hundredths(p.current as nat, p.total as nat) + "% ("@ + share(
        p.current as nat,
        p.total as nat,
        4,
    );
    if p.path is Some {
        assert(state.receiving() =~= net + idx + chk + ") "@ + p.path->0@ + "\r"@);
    } else {
        assert(state.receiving() =~= net + idx + chk + ") "@ + "\r"@);
    }
}

/// A part of a whole in hundredths, three characters wide.
pub open spec fn hundredths(part: nat, whole: nat) -> Seq<char> {
    text::padded(text::decimal(percent(part, whole)), 3)
}

} // verus!
