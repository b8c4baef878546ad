//! The shop's transactional stock engine.
//!
//! Per flavor the engine keeps three counters: `stock` (committed units),
//! `reserved` (units tentatively held for in-flight orders) and `confirmed`
//! (units already consumed but not yet applied to `stock`, because a backup
//! snapshot is in progress).  The invariant `reserved + confirmed <= stock`
//! holds at every step, so the available amount `stock - reserved - confirmed`
//! is never negative, and while a backup runs `stock` never decreases.
//!
//! Consumption runs in three phases: `reserve` holds units, then either
//! `confirm` commits them (directly to `stock`, or into `confirmed` during a
//! backup) or `cancel` releases them.  `backup_start` turns deferred mode on
//! and returns the snapshot to write; `finalize_backup` drains `confirmed`
//! back into `stock` and turns deferred mode off.

use vstd::prelude::*;

use crate::text::all_digits;
use crate::text::num_val;
use crate::text::parse_u32;
use crate::text::split_commas;
use crate::text::split_spec;
use crate::text::str_eq;
use crate::text::strings_view;
use crate::text::to_upper;
use crate::text::upper_seq;

verus! {

/// The ways a stock operation can fail.
#[derive(Debug, Clone, Copy, PartialEq, Eq, Structural)]
pub enum StockError {
    /// The requested flavor is not in the inventory.
    FlavorUnknown,
    /// Fewer units are available than were requested.
    NotEnoughStock,
    /// A cancellation named more units than are reserved: a caller error.
    InvalidCancel,
    /// A confirmation named more units than are reserved: a caller error.
    InvalidConfirm,
    /// A backup was requested while one is already running.
    BackupBusy,
}

/// The notification the engine emits exactly once per reserve call: the
/// reserved flavor and amount on success, nothing on failure.
#[derive(Debug, PartialEq, Eq)]
pub struct StockResult {
    /// The order the reserve belongs to.
    pub requester: u128,
    /// The reserved `(flavor, units)` pair, or `None` when the reserve failed.
    pub result: Option<(String, u32)>,
}

/// One flavor's counters.
#[derive(Debug)]
pub struct FlavorRecord {
    /// The flavor key, upper-cased.
    pub name: String,
    /// Committed units.
    pub stock: u32,
    /// Units held for in-flight orders.
    pub reserved: u32,
    /// Units consumed but not yet applied to `stock` (backup deferral).
    pub confirmed: u32,
}

impl FlavorRecord {
    /// Units a new reserve may still take.
    pub open spec fn available(&self) -> int {
        self.stock - self.reserved - self.confirmed
    }

    /// The per-flavor invariant: holds and deferred units never exceed the
    /// committed stock.
    pub open spec fn ok(&self) -> bool {
        self.reserved + self.confirmed <= self.stock
    }
}

/// Whether some record carries the given name.
pub open spec fn has_flavor(s: Seq<FlavorRecord>, name: Seq<char>) -> bool {
    exists|i: int| 0 <= i < s.len() && s[i].name@ == name
}

/// The index of the record carrying the given name.
pub open spec fn idx_of(s: Seq<FlavorRecord>, name: Seq<char>) -> int {
    choose|i: int| 0 <= i < s.len() && s[i].name@ == name
}

/// Whether all record names differ.
pub open spec fn unique_names(s: Seq<FlavorRecord>) -> bool {
    forall|i: int, j: int| 0 <= i < j < s.len() ==> s[i].name@ != s[j].name@
}

/// With unique names, a record's index is the one `idx_of` picks.
pub proof fn lemma_idx_of_unique(s: Seq<FlavorRecord>, name: Seq<char>, i: int)
    requires
        unique_names(s),
        0 <= i < s.len(),
        s[i].name@ == name,
    ensures
        has_flavor(s, name),
        idx_of(s, name) == i,
{
    assert(has_flavor(s, name));
    let j = idx_of(s, name);
    if j < i {
        assert(s[j].name@ != s[i].name@);
    } else if j > i {
        assert(s[i].name@ != s[j].name@);
    }
}

/// The stock engine: the inventory records, the backup-mode flag and the
/// auto-backup counter.
#[derive(Debug)]
pub struct StockEngine {
    /// One record per flavor, names unique.
    pub flavors: Vec<FlavorRecord>,
    /// Whether a backup snapshot is being written: confirms are deferred.
    pub backup_in_progress: bool,
    /// Confirm calls since the last backup began.
    pub confirms_since_last_backup: usize,
    /// How many confirm calls schedule an automatic backup.
    pub max_confirms_before_backup: usize,
}

impl StockEngine {
    /// The engine invariant: unique flavor names, and every record within its
    /// bounds.
    pub open spec fn wf(&self) -> bool {
        &&& unique_names(self.flavors@)
        &&& forall|i: int|
            0 <= i < self.flavors@.len() ==> (#[trigger] self.flavors@[i]).ok()
    }

    /// An engine with an empty inventory.
    pub fn new(max_confirms_before_backup: usize) -> (r: StockEngine)
        ensures
            r.wf(),
            r.flavors@.len() == 0,
            !r.backup_in_progress,
            r.confirms_since_last_backup == 0,
            r.max_confirms_before_backup == max_confirms_before_backup,
    {
        StockEngine {
            flavors: Vec::new(),
            backup_in_progress: false,
            confirms_since_last_backup: 0,
            max_confirms_before_backup,
        }
    }

    /// The record index of a flavor name, given as it is stored.
    fn find_index(&self, name: &str) -> (r: Option<usize>)
        ensures
            match r {
                Some(i) => i < self.flavors@.len() && self.flavors@[i as int].name@ == name@,
                None => !has_flavor(self.flavors@, name@),
            },
    {
        let n = self.flavors.len();
        let mut i: usize = 0;
        while i < n
            invariant
                i <= n,
                n == self.flavors@.len(),
                forall|j: int| 0 <= j < i ==> self.flavors@[j].name@ != name@,
            decreases n - i,
        {
            if str_eq(self.flavors[i].name.as_str(), name) {
                return Some(i);
            }
            i = i + 1;
        }
        None
    }

    /// Places a reserve: looks the flavor up (case-insensitively), checks the
    /// available amount, and on success holds the units.  Returns the per-call
    /// result together with the one notification owed to the requester: its
    /// payload carries the flavor and amount exactly when the reserve
    /// succeeded.
    pub fn reserve(&mut self, request_id: u128, flavor: &str, amount: u32) -> (r: (
        Result<(), StockError>,
        StockResult,
    ))
        requires
            old(self).wf(),
        ensures
            final(self).wf(),
            final(self).backup_in_progress == old(self).backup_in_progress,
            final(self).confirms_since_last_backup == old(self).confirms_since_last_backup,
            final(self).max_confirms_before_backup == old(self).max_confirms_before_backup,
            r.1.requester == request_id,
            (r.0 is Ok) == (r.1.result is Some),
            final(self).flavors@ == sp_reserve(old(self).flavors@, upper_seq(flavor@), amount),
            !has_flavor(old(self).flavors@, upper_seq(flavor@)) ==> {
                &&& final(self).flavors@ == old(self).flavors@
                &&& r.0 == Err::<(), StockError>(StockError::FlavorUnknown)
            },
            has_flavor(old(self).flavors@, upper_seq(flavor@)) ==> {
                let i = idx_of(old(self).flavors@, upper_seq(flavor@));
                let rec = old(self).flavors@[i];
                if rec.available() >= amount {
                    &&& r.0 == Ok::<(), StockError>(())
                    &&& final(self).flavors@ == old(self).flavors@.update(
                        i,
                        (FlavorRecord {
                            reserved: (rec.reserved + amount) as u32,
                            ..rec
                        }),
                    )
                    &&& match r.1.result {
                        Some(fa) => fa.0@ == upper_seq(flavor@) && fa.1 == amount,
                        None => false,
                    }
                } else {
                    &&& r.0 == Err::<(), StockError>(StockError::NotEnoughStock)
                    &&& final(self).flavors@ == old(self).flavors@
                }
            },
    {
        let fl = to_upper(flavor);
        match self.find_index(fl.as_str()) {
            None => (
                Err(StockError::FlavorUnknown),
                StockResult { requester: request_id, result: None },
            ),
            Some(i) => {
                proof {
                    lemma_idx_of_unique(self.flavors@, upper_seq(flavor@), i as int);
                }
                let rec_stock = self.flavors[i].stock;
                let rec_reserved = self.flavors[i].reserved;
                let rec_confirmed = self.flavors[i].confirmed;
                let available = rec_stock - rec_reserved - rec_confirmed;
                if available >= amount {
                    self.flavors[i].reserved = rec_reserved + amount;
                    proof {
                        assert forall|k: int|
                            0 <= k < self.flavors@.len() implies (
                        #[trigger] self.flavors@[k]).ok() by {
                            if k != i {
                                assert(self.flavors@[k] == old(self).flavors@[k]);
                            }
                        }
                        assert(unique_names(self.flavors@)) by {
                            assert forall|x: int, y: int|
                                0 <= x < y < self.flavors@.len() implies self.flavors@[x].name@
                                != self.flavors@[y].name@ by {
                                assert(self.flavors@[x].name@ == old(self).flavors@[x].name@);
                                assert(self.flavors@[y].name@ == old(self).flavors@[y].name@);
                            }
                        }
                    }
                    (
                        Ok(()),
                        StockResult { requester: request_id, result: Some((fl, amount)) },
                    )
                } else {
                    (
                        Err(StockError::NotEnoughStock),
                        StockResult { requester: request_id, result: None },
                    )
                }
            },
        }
    }

    /// Releases a reserve: the flavor name comes back exactly as `reserve`
    /// returned it.  Canceling more units than are reserved is a caller error:
    /// the reserve is clamped to zero and `InvalidCancel` comes back; an
    /// unknown flavor also gives `InvalidCancel`.  `stock` never changes.
    pub fn cancel_one(&mut self, flavor: &str, amount: u32) -> (r: Result<(), StockError>)
        requires
            old(self).wf(),
        ensures
            final(self).wf(),
            final(self).backup_in_progress == old(self).backup_in_progress,
            final(self).confirms_since_last_backup == old(self).confirms_since_last_backup,
            final(self).max_confirms_before_backup == old(self).max_confirms_before_backup,
            final(self).flavors@ == sp_cancel(old(self).flavors@, flavor@, amount),
            r == sp_cancel_res(old(self).flavors@, flavor@, amount),
    {
        match self.find_index(flavor) {
            None => Err(StockError::InvalidCancel),
            Some(i) => {
                proof {
                    lemma_idx_of_unique(self.flavors@, flavor@, i as int);
                }
                let rec_reserved = self.flavors[i].reserved;
                if amount <= rec_reserved {
                    self.flavors[i].reserved = rec_reserved - amount;
                    proof {
                        lemma_update_keeps_wf(old(self).flavors@, self.flavors@, i as int);
                    }
                    Ok(())
                } else {
                    self.flavors[i].reserved = 0;
                    proof {
                        lemma_update_keeps_wf(old(self).flavors@, self.flavors@, i as int);
                    }
                    Err(StockError::InvalidCancel)
                }
            },
        }
    }

    /// Commits one reserved amount.  Outside a backup the units move from
    /// `reserved` straight out of `stock`; during a backup they move into
    /// `confirmed` instead, so `stock` stays put until the snapshot is done.
    /// Confirming more than is reserved is a caller error: the reserve is
    /// clamped to zero and `InvalidConfirm` comes back.
    pub fn confirm_one(&mut self, flavor: &str, amount: u32) -> (r: Result<(), StockError>)
        requires
            old(self).wf(),
        ensures
            final(self).wf(),
            final(self).backup_in_progress == old(self).backup_in_progress,
            final(self).confirms_since_last_backup == old(self).confirms_since_last_backup,
            final(self).max_confirms_before_backup == old(self).max_confirms_before_backup,
            final(self).flavors@ == sp_confirm(
                old(self).flavors@,
                old(self).backup_in_progress,
                flavor@,
                amount,
            ),
            r == sp_confirm_res(old(self).flavors@, flavor@, amount),
    {
        match self.find_index(flavor) {
            None => Err(StockError::InvalidConfirm),
            Some(i) => {
                proof {
                    lemma_idx_of_unique(self.flavors@, flavor@, i as int);
                }
                let rec_stock = self.flavors[i].stock;
                let rec_reserved = self.flavors[i].reserved;
                let rec_confirmed = self.flavors[i].confirmed;
                if amount <= rec_reserved {
                    if self.backup_in_progress {
                        self.flavors[i].reserved = rec_reserved - amount;
                        self.flavors[i].confirmed = rec_confirmed + amount;
                    } else {
                        self.flavors[i].stock = rec_stock - amount;
                        self.flavors[i].reserved = rec_reserved - amount;
                    }
                    proof {
                        lemma_update_keeps_wf(old(self).flavors@, self.flavors@, i as int);
                    }
                    Ok(())
                } else {
                    self.flavors[i].reserved = 0;
                    proof {
                        lemma_update_keeps_wf(old(self).flavors@, self.flavors@, i as int);
                    }
                    Err(StockError::InvalidConfirm)
                }
            },
        }
    }
}

/// What one reserve does to the records: when the flavor exists and enough is
/// available, the units move into `reserved`; otherwise nothing changes.
pub open spec fn sp_reserve(fl: Seq<FlavorRecord>, name: Seq<char>, amount: u32) -> Seq<
    FlavorRecord,
> {
    if !has_flavor(fl, name) {
        fl
    } else {
        let i = idx_of(fl, name);
        let rec = fl[i];
        if rec.available() >= amount {
            fl.update(i, (FlavorRecord { reserved: (rec.reserved + amount) as u32, ..rec }))
        } else {
            fl
        }
    }
}

/// What one cancellation does to the records.
pub open spec fn sp_cancel(fl: Seq<FlavorRecord>, name: Seq<char>, amount: u32) -> Seq<
    FlavorRecord,
> {
    if !has_flavor(fl, name) {
        fl
    } else {
        let i = idx_of(fl, name);
        let rec = fl[i];
        if amount <= rec.reserved {
            fl.update(i, (FlavorRecord { reserved: (rec.reserved - amount) as u32, ..rec }))
        } else {
            fl.update(i, (FlavorRecord { reserved: 0u32, ..rec }))
        }
    }
}

/// What one cancellation reports.
pub open spec fn sp_cancel_res(fl: Seq<FlavorRecord>, name: Seq<char>, amount: u32) -> Result<
    (),
    StockError,
> {
    if has_flavor(fl, name) && amount <= fl[idx_of(fl, name)].reserved {
        Ok(())
    } else {
        Err(StockError::InvalidCancel)
    }
}

/// What one confirmation does to the records: during a backup the units move
/// from `reserved` to `confirmed`; otherwise they leave `reserved` and
/// `stock` together.
pub open spec fn sp_confirm(
    fl: Seq<FlavorRecord>,
    backup: bool,
    name: Seq<char>,
    amount: u32,
) -> Seq<FlavorRecord> {
    if !has_flavor(fl, name) {
        fl
    } else {
        let i = idx_of(fl, name);
        let rec = fl[i];
        if amount <= rec.reserved {
            if backup {
                fl.update(
                    i,
                    (FlavorRecord {
                        reserved: (rec.reserved - amount) as u32,
                        confirmed: (rec.confirmed + amount) as u32,
                        ..rec
                    }),
                )
            } else {
                fl.update(
                    i,
                    (FlavorRecord {
                        stock: (rec.stock - amount) as u32,
                        reserved: (rec.reserved - amount) as u32,
                        ..rec
                    }),
                )
            }
        } else {
            fl.update(i, (FlavorRecord { reserved: 0u32, ..rec }))
        }
    }
}

/// What one confirmation reports.
pub open spec fn sp_confirm_res(fl: Seq<FlavorRecord>, name: Seq<char>, amount: u32) -> Result<
    (),
    StockError,
> {
    if has_flavor(fl, name) && amount <= fl[idx_of(fl, name)].reserved {
        Ok(())
    } else {
        Err(StockError::InvalidConfirm)
    }
}

/// The view of a reserve list: each flavor as its character sequence.
pub open spec fn pairs_view(v: Seq<(String, u32)>) -> Seq<(Seq<char>, u32)> {
    v.map_values(|p: (String, u32)| (p.0@, p.1))
}

/// What a whole cancellation list does: the records after every entry was
/// applied in order, and the per-entry results.
pub open spec fn sp_cancel_fold(fl: Seq<FlavorRecord>, items: Seq<(Seq<char>, u32)>) -> (
    Seq<FlavorRecord>,
    Seq<Result<(), StockError>>,
)
    decreases items.len(),
{
    if items.len() == 0 {
        (fl, Seq::empty())
    } else {
        let f1 = sp_cancel(fl, items[0].0, items[0].1);
        let r1 = sp_cancel_res(fl, items[0].0, items[0].1);
        let rest = sp_cancel_fold(f1, items.drop_first());
        (rest.0, seq![r1] + rest.1)
    }
}

/// What a whole confirmation list does, under the given backup mode.
pub open spec fn sp_confirm_fold(
    fl: Seq<FlavorRecord>,
    backup: bool,
    items: Seq<(Seq<char>, u32)>,
) -> (Seq<FlavorRecord>, Seq<Result<(), StockError>>)
    decreases items.len(),
{
    if items.len() == 0 {
        (fl, Seq::empty())
    } else {
        let f1 = sp_confirm(fl, backup, items[0].0, items[0].1);
        let r1 = sp_confirm_res(fl, items[0].0, items[0].1);
        let rest = sp_confirm_fold(f1, backup, items.drop_first());
        (rest.0, seq![r1] + rest.1)
    }
}

impl StockEngine {
    /// Releases a list of reserves, one result per entry, in order.
    pub fn cancel(&mut self, reserves: &Vec<(String, u32)>) -> (results: Vec<
        Result<(), StockError>,
    >)
        requires
            old(self).wf(),
        ensures
            final(self).wf(),
            final(self).backup_in_progress == old(self).backup_in_progress,
            final(self).confirms_since_last_backup == old(self).confirms_since_last_backup,
            final(self).max_confirms_before_backup == old(self).max_confirms_before_backup,
            final(self).flavors@ == sp_cancel_fold(old(self).flavors@, pairs_view(reserves@)).0,
            results@ == sp_cancel_fold(old(self).flavors@, pairs_view(reserves@)).1,
    {
        let ghost items = pairs_view(reserves@);
        let n = reserves.len();
        let mut results: Vec<Result<(), StockError>> = Vec::new();
        let mut k: usize = 0;
        proof {
            assert(items.skip(0) =~= items);
        }
        while k < n
            invariant
                k <= n,
                n == reserves@.len(),
                items == pairs_view(reserves@),
                self.wf(),
                self.backup_in_progress == old(self).backup_in_progress,
                self.confirms_since_last_backup == old(self).confirms_since_last_backup,
                self.max_confirms_before_backup == old(self).max_confirms_before_backup,
                sp_cancel_fold(old(self).flavors@, items).0 == sp_cancel_fold(
                    self.flavors@,
                    items.skip(k as int),
                ).0,
                sp_cancel_fold(old(self).flavors@, items).1 == results@ + sp_cancel_fold(
                    self.flavors@,
                    items.skip(k as int),
                ).1,
            decreases n - k,
        {
            let ghost fl_before = self.flavors@;
            let ghost results_before = results@;
            let ghost tail = items.skip(k as int);
            proof {
                assert(tail[0] == items[k as int]);
                assert(items[k as int] == (reserves@[k as int].0@, reserves@[k as int].1));
                assert(tail.drop_first() =~= items.skip(k + 1));
            }
            let entry = &reserves[k];
            let res = self.cancel_one(entry.0.as_str(), entry.1);
            results.push(res);
            proof {
                let rest = sp_cancel_fold(self.flavors@, items.skip(k + 1));
                assert(sp_cancel_fold(fl_before, tail).0 == rest.0);
                assert(sp_cancel_fold(fl_before, tail).1 == seq![res] + rest.1);
                assert(results_before + (seq![res] + rest.1) =~= results@ + rest.1);
            }
            k = k + 1;
        }
        proof {
            assert(items.skip(n as int) =~= Seq::<(Seq<char>, u32)>::empty());
            assert(results@ + Seq::<Result<(), StockError>>::empty() =~= results@);
        }
        results
    }

    /// Commits a list of reserves, one result per entry, in order; counts the
    /// call toward the automatic backup and reports whether one is due now:
    /// the counter reached its bound and no backup is running.
    pub fn confirm(&mut self, reserves: &Vec<(String, u32)>) -> (r: (
        Vec<Result<(), StockError>>,
        bool,
    ))
        requires
            old(self).wf(),
        ensures
            final(self).wf(),
            final(self).backup_in_progress == old(self).backup_in_progress,
            final(self).max_confirms_before_backup == old(self).max_confirms_before_backup,
            final(self).flavors@ == sp_confirm_fold(
                old(self).flavors@,
                old(self).backup_in_progress,
                pairs_view(reserves@),
            ).0,
            r.0@ == sp_confirm_fold(
                old(self).flavors@,
                old(self).backup_in_progress,
                pairs_view(reserves@),
            ).1,
            final(self).confirms_since_last_backup == (
            if old(self).confirms_since_last_backup < usize::MAX {
                old(self).confirms_since_last_backup + 1
            } else {
                old(self).confirms_since_last_backup as int
            }),
            r.1 == (final(self).confirms_since_last_backup
                >= final(self).max_confirms_before_backup && !final(self).backup_in_progress),
    {
        let ghost items = pairs_view(reserves@);
        let ghost backup0 = self.backup_in_progress;
        let n = reserves.len();
        let mut results: Vec<Result<(), StockError>> = Vec::new();
        let mut k: usize = 0;
        proof {
            assert(items.skip(0) =~= items);
        }
        while k < n
            invariant
                k <= n,
                n == reserves@.len(),
                items == pairs_view(reserves@),
                backup0 == old(self).backup_in_progress,
                self.wf(),
                self.backup_in_progress == old(self).backup_in_progress,
                self.confirms_since_last_backup == old(self).confirms_since_last_backup,
                self.max_confirms_before_backup == old(self).max_confirms_before_backup,
                sp_confirm_fold(old(self).flavors@, backup0, items).0 == sp_confirm_fold(
                    self.flavors@,
                    backup0,
                    items.skip(k as int),
                ).0,
                sp_confirm_fold(old(self).flavors@, backup0, items).1 == results@
                    + sp_confirm_fold(self.flavors@, backup0, items.skip(k as int)).1,
            decreases n - k,
        {
            let ghost fl_before = self.flavors@;
            let ghost results_before = results@;
            let ghost tail = items.skip(k as int);
            proof {
                assert(tail[0] == items[k as int]);
                assert(items[k as int] == (reserves@[k as int].0@, reserves@[k as int].1));
                assert(tail.drop_first() =~= items.skip(k + 1));
            }
            let entry = &reserves[k];
            let res = self.confirm_one(entry.0.as_str(), entry.1);
            results.push(res);
            proof {
                let rest = sp_confirm_fold(self.flavors@, backup0, items.skip(k + 1));
                assert(sp_confirm_fold(fl_before, backup0, tail).0 == rest.0);
                assert(sp_confirm_fold(fl_before, backup0, tail).1 == seq![res] + rest.1);
                assert(results_before + (seq![res] + rest.1) =~= results@ + rest.1);
            }
            k = k + 1;
        }
        proof {
            assert(items.skip(n as int) =~= Seq::<(Seq<char>, u32)>::empty());
            assert(results@ + Seq::<Result<(), StockError>>::empty() =~= results@);
        }
        if self.confirms_since_last_backup < usize::MAX {
            self.confirms_since_last_backup = self.confirms_since_last_backup + 1;
        }
        let due = self.confirms_since_last_backup >= self.max_confirms_before_backup
            && !self.backup_in_progress;
        (results, due)
    }

    /// Begins a backup: refused while one is running; otherwise deferred mode
    /// turns on, the auto-backup counter restarts, and the snapshot to write
    /// comes back: every flavor with its `stock` count at this instant.
    pub fn backup_start(&mut self) -> (r: Result<Vec<(String, u32)>, StockError>)
        requires
            old(self).wf(),
        ensures
            final(self).wf(),
            final(self).flavors@ == old(self).flavors@,
            final(self).max_confirms_before_backup == old(self).max_confirms_before_backup,
            old(self).backup_in_progress ==> {
                &&& r == Err::<Vec<(String, u32)>, StockError>(StockError::BackupBusy)
                &&& final(self).backup_in_progress
                &&& final(self).confirms_since_last_backup == old(
                    self,
                ).confirms_since_last_backup
            },
            !old(self).backup_in_progress ==> {
                &&& final(self).backup_in_progress
                &&& final(self).confirms_since_last_backup == 0
                &&& match r {
                    Ok(snap) => {
                        &&& snap@.len() == old(self).flavors@.len()
                        &&& forall|i: int|
                            0 <= i < snap@.len() ==> (#[trigger] snap@[i]).0@
                                == old(self).flavors@[i].name@ && snap@[i].1
                                == old(self).flavors@[i].stock
                    },
                    Err(_) => false,
                }
            },
    {
        if self.backup_in_progress {
            return Err(StockError::BackupBusy);
        }
        self.backup_in_progress = true;
        self.confirms_since_last_backup = 0;
        let n = self.flavors.len();
        let mut snap: Vec<(String, u32)> = Vec::new();
        let mut i: usize = 0;
        while i < n
            invariant
                i <= n,
                n == self.flavors@.len(),
                snap@.len() == i,
                forall|j: int|
                    0 <= j < i ==> (#[trigger] snap@[j]).0@ == self.flavors@[j].name@ && snap@[j].1
                        == self.flavors@[j].stock,
            decreases n - i,
        {
            let name = self.flavors[i].name.clone();
            let count = self.flavors[i].stock;
            snap.push((name, count));
            i = i + 1;
        }
        Ok(snap)
    }

    /// Ends a backup: deferred mode turns off and every flavor's `confirmed`
    /// units drain into `stock`.  Afterwards `confirmed` is zero everywhere.
    pub fn finalize_backup(&mut self)
        requires
            old(self).wf(),
        ensures
            final(self).wf(),
            !final(self).backup_in_progress,
            final(self).confirms_since_last_backup == old(self).confirms_since_last_backup,
            final(self).max_confirms_before_backup == old(self).max_confirms_before_backup,
            final(self).flavors@.len() == old(self).flavors@.len(),
            forall|i: int|
                0 <= i < old(self).flavors@.len() ==> {
                    &&& (#[trigger] final(self).flavors@[i]).name@ == old(self).flavors@[i].name@
                    &&& final(self).flavors@[i].reserved == old(self).flavors@[i].reserved
                    &&& final(self).flavors@[i].stock == old(self).flavors@[i].stock - old(
                        self,
                    ).flavors@[i].confirmed
                    &&& final(self).flavors@[i].confirmed == 0
                },
    {
        self.backup_in_progress = false;
        let n = self.flavors.len();
        let mut i: usize = 0;
        while i < n
            invariant
                i <= n,
                n == self.flavors@.len(),
                n == old(self).flavors@.len(),
                self.backup_in_progress == false,
                self.confirms_since_last_backup == old(self).confirms_since_last_backup,
                self.max_confirms_before_backup == old(self).max_confirms_before_backup,
                forall|j: int| i <= j < n ==> self.flavors@[j] == old(self).flavors@[j],
                forall|j: int|
                    0 <= j < i ==> {
                        &&& (#[trigger] self.flavors@[j]).name@ == old(self).flavors@[j].name@
                        &&& self.flavors@[j].reserved == old(self).flavors@[j].reserved
                        &&& self.flavors@[j].stock == old(self).flavors@[j].stock - old(
                            self,
                        ).flavors@[j].confirmed
                        &&& self.flavors@[j].confirmed == 0
                    },
                forall|j: int| 0 <= j < n ==> (#[trigger] old(self).flavors@[j]).ok(),
                unique_names(old(self).flavors@),
            decreases n - i,
        {
            let c = self.flavors[i].confirmed;
            let s = self.flavors[i].stock;
            self.flavors[i].stock = s - c;
            self.flavors[i].confirmed = 0;
            i = i + 1;
        }
        proof {
            assert forall|x: int, y: int|
                0 <= x < y < self.flavors@.len() implies self.flavors@[x].name@
                != self.flavors@[y].name@ by {
                assert(self.flavors@[x].name@ == old(self).flavors@[x].name@);
                assert(self.flavors@[y].name@ == old(self).flavors@[y].name@);
            }
            assert forall|k: int|
                0 <= k < self.flavors@.len() implies (#[trigger] self.flavors@[k]).ok() by {
                assert(old(self).flavors@[k].ok());
            }
        }
    }
}

/// One flavor's counters as a pure value, for speaking about inventories that
/// are built rather than updated.
pub struct FlavorV {
    pub name: Seq<char>,
    pub stock: u32,
    pub reserved: u32,
    pub confirmed: u32,
}

/// The pure view of the records.
pub open spec fn recs_view(s: Seq<FlavorRecord>) -> Seq<FlavorV> {
    s.map_values(
        |r: FlavorRecord| FlavorV {
            name: r.name@,
            stock: r.stock,
            reserved: r.reserved,
            confirmed: r.confirmed,
        },
    )
}

/// Whether some pure record carries the given name.
pub open spec fn has_flavor_v(s: Seq<FlavorV>, name: Seq<char>) -> bool {
    exists|i: int| 0 <= i < s.len() && s[i].name == name
}

/// The index of the pure record carrying the given name.
pub open spec fn idx_of_v(s: Seq<FlavorV>, name: Seq<char>) -> int {
    choose|i: int| 0 <= i < s.len() && s[i].name == name
}

/// What loading one `flavor,count` record does: a fresh flavor is appended; a
/// repeated one is replaced whole, nothing reserved and nothing deferred.
pub open spec fn sp_add(s: Seq<FlavorV>, name: Seq<char>, count: u32) -> Seq<FlavorV> {
    let rec = FlavorV { name: name, stock: count, reserved: 0u32, confirmed: 0u32 };
    if has_flavor_v(s, name) {
        s.update(idx_of_v(s, name), rec)
    } else {
        s.push(rec)
    }
}

/// What one inventory line holds: the upper-cased flavor and its count, for a
/// line whose second comma-separated field is a count that fits; nothing for
/// any other line.
pub open spec fn sp_parse_inventory_line(l: Seq<char>) -> Option<(Seq<char>, u32)> {
    let f = split_spec(l, set![',']);
    if f.len() >= 2 && f[1].len() > 0 && all_digits(f[1]) && num_val(f[1]) <= u32::MAX {
        Some((upper_seq(f[0]), num_val(f[1]) as u32))
    } else {
        None
    }
}

/// The inventory an entire file describes, applied line by line; malformed
/// lines are skipped.
pub open spec fn sp_load(s: Seq<FlavorV>, lines: Seq<Seq<char>>) -> Seq<FlavorV>
    decreases lines.len(),
{
    if lines.len() == 0 {
        s
    } else {
        let s1 = match sp_parse_inventory_line(lines[0]) {
            Some(nc) => sp_add(s, nc.0, nc.1),
            None => s,
        };
        sp_load(s1, lines.drop_first())
    }
}

impl StockEngine {
    /// Sets one flavor's committed stock, creating the record if the flavor
    /// is new.  The name is upper-cased; a replaced record starts over with
    /// nothing reserved and nothing deferred.
    pub fn add_flavor(&mut self, name: &str, count: u32)
        requires
            old(self).wf(),
        ensures
            final(self).wf(),
            final(self).backup_in_progress == old(self).backup_in_progress,
            final(self).confirms_since_last_backup == old(self).confirms_since_last_backup,
            final(self).max_confirms_before_backup == old(self).max_confirms_before_backup,
            recs_view(final(self).flavors@) == sp_add(
                recs_view(old(self).flavors@),
                upper_seq(name@),
                count,
            ),
    {
        let upper = to_upper(name);
        let ghost key = upper_seq(name@);
        proof {
            lemma_recs_view_has(old(self).flavors@, key);
        }
        match self.find_index(upper.as_str()) {
            Some(i) => {
                proof {
                    lemma_idx_of_unique(self.flavors@, key, i as int);
                    lemma_recs_view_idx(old(self).flavors@, key, i as int);
                }
                self.flavors[i].stock = count;
                self.flavors[i].reserved = 0;
                self.flavors[i].confirmed = 0;
                proof {
                    lemma_update_keeps_wf(old(self).flavors@, self.flavors@, i as int);
                    assert(recs_view(self.flavors@) =~= sp_add(
                        recs_view(old(self).flavors@),
                        key,
                        count,
                    ));
                }
            },
            None => {
                self.flavors.push(
                    FlavorRecord { name: upper, stock: count, reserved: 0, confirmed: 0 },
                );
                proof {
                    assert forall|x: int, y: int|
                        0 <= x < y < self.flavors@.len() implies self.flavors@[x].name@
                        != self.flavors@[y].name@ by {
                        if y < self.flavors@.len() - 1 {
                            assert(self.flavors@[x] == old(self).flavors@[x]);
                            assert(self.flavors@[y] == old(self).flavors@[y]);
                        } else {
                            assert(self.flavors@[x] == old(self).flavors@[x]);
                            assert(!has_flavor(old(self).flavors@, key));
                        }
                    }
                    assert forall|k: int|
                        0 <= k < self.flavors@.len() implies (
                    #[trigger] self.flavors@[k]).ok() by {
                        if k < self.flavors@.len() - 1 {
                            assert(self.flavors@[k] == old(self).flavors@[k]);
                        }
                    }
                    assert(recs_view(self.flavors@) =~= sp_add(
                        recs_view(old(self).flavors@),
                        key,
                        count,
                    ));
                }
            },
        }
    }

    /// Builds an engine from the lines of an inventory file, one
    /// `flavor,count` record per line.  Flavors are upper-cased; lines whose
    /// count does not read as a number are skipped; a repeated flavor keeps
    /// its last count.
    pub fn load_inventory(lines: &Vec<String>, max_confirms_before_backup: usize) -> (r:
        StockEngine)
        ensures
            r.wf(),
            !r.backup_in_progress,
            r.confirms_since_last_backup == 0,
            r.max_confirms_before_backup == max_confirms_before_backup,
            recs_view(r.flavors@) == sp_load(Seq::empty(), strings_view(lines@)),
    {
        let ghost lv = strings_view(lines@);
        let mut engine = StockEngine::new(max_confirms_before_backup);
        proof {
            assert(recs_view(engine.flavors@) =~= Seq::<FlavorV>::empty());
            assert(lv.skip(0) =~= lv);
        }
        let n = lines.len();
        let mut k: usize = 0;
        while k < n
            invariant
                k <= n,
                n == lines@.len(),
                lv == strings_view(lines@),
                engine.wf(),
                !engine.backup_in_progress,
                engine.confirms_since_last_backup == 0,
                engine.max_confirms_before_backup == max_confirms_before_backup,
                sp_load(recs_view(engine.flavors@), lv.skip(k as int)) == sp_load(
                    Seq::empty(),
                    lv,
                ),
            decreases n - k,
        {
            let ghost tail = lv.skip(k as int);
            proof {
                assert(tail[0] == lv[k as int]);
                assert(lv[k as int] == lines@[k as int]@);
                assert(tail.drop_first() =~= lv.skip(k + 1));
            }
            let fields = split_commas(lines[k].as_str());
            proof {
                assert(strings_view(fields@) == split_spec(lines@[k as int]@, set![',']));
            }
            if fields.len() >= 2 {
                proof {
                    assert(fields@[1]@ == strings_view(fields@)[1]);
                    assert(fields@[0]@ == strings_view(fields@)[0]);
                }
                match parse_u32(fields[1].as_str()) {
                    Some(count) => {
                        engine.add_flavor(fields[0].as_str(), count);
                    },
                    None => {
                        proof {
                            assert(sp_parse_inventory_line(lv[k as int]) is None);
                        }
                    },
                }
            }
            k = k + 1;
        }
        proof {
            assert(lv.skip(n as int) =~= Seq::<Seq<char>>::empty());
        }
        engine
    }
}

/// One backup line: `flavor,count` and a newline.
pub open spec fn render_line(name: Seq<char>, count: u32) -> Seq<char> {
    name + seq![','] + crate::text::dec_seq(count as nat) + seq!['\n']
}

/// The whole backup text: one line per snapshot entry, in order.
pub open spec fn render_spec(items: Seq<(Seq<char>, u32)>) -> Seq<char>
    decreases items.len(),
{
    if items.len() == 0 {
        Seq::empty()
    } else {
        render_line(items[0].0, items[0].1) + render_spec(items.drop_first())
    }
}

/// Renders a snapshot in the inventory-file format, one `flavor,count` line
/// per entry.  What `backup_start` returns, rendered this way and loaded
/// back, names the same flavors with the same counts.
pub fn render_backup(snapshot: &Vec<(String, u32)>) -> (r: String)
    ensures
        r@ == render_spec(pairs_view(snapshot@)),
{
    let ghost items = pairs_view(snapshot@);
    let mut out = String::new();
    let n = snapshot.len();
    let mut k: usize = 0;
    proof {
        assert(items.skip(0) =~= items);
    }
    while k < n
        invariant
            k <= n,
            n == snapshot@.len(),
            items == pairs_view(snapshot@),
            out@ + render_spec(items.skip(k as int)) == render_spec(items),
        decreases n - k,
    {
        let ghost out0 = out@;
        let ghost tail = items.skip(k as int);
        proof {
            assert(tail[0] == items[k as int]);
            assert(items[k as int] == (snapshot@[k as int].0@, snapshot@[k as int].1));
            assert(tail.drop_first() =~= items.skip(k + 1));
        }
        let entry = &snapshot[k];
        out.append(entry.0.as_str());
        crate::text::push_char(&mut out, ',');
        let num = crate::text::u64_to_string(entry.1 as u64);
        out.append(num.as_str());
        crate::text::push_char(&mut out, '\n');
        proof {
            assert(out@ =~= out0 + render_line(tail[0].0, tail[0].1));
            assert(out@ + render_spec(items.skip(k + 1)) =~= out0 + render_spec(tail));
        }
        k = k + 1;
    }
    proof {
        assert(items.skip(n as int) =~= Seq::<(Seq<char>, u32)>::empty());
        assert(out@ + Seq::<char>::empty() =~= out@);
    }
    out
}

/// The file name of an automatic backup: `auto-`, the clock reading, `.csv`.
/// The middle depends on the clock, so only the shape is promised.
pub fn auto_backup_file() -> (r: String)
    ensures
        exists|stamp: Seq<char>| r@ == "auto-"@ + stamp + ".csv"@,
{
    let stamp = crate::draws::timestamp_string();
    let ghost stamp_view = stamp@;
    let mut name = String::new();
    name.append("auto-");
    name.append(stamp.as_str());
    name.append(".csv");
    proof {
        assert(name@ =~= "auto-"@ + stamp_view + ".csv"@);
    }
    name
}

/// For every flavor of a well-formed engine, at every observable moment: the
/// reserved and confirmed counters are non-negative and together never exceed
/// the committed stock, so the available amount is never negative.
pub proof fn lemma_counters_bounded(e: &StockEngine, i: int)
    requires
        e.wf(),
        0 <= i < e.flavors@.len(),
    ensures
        e.flavors@[i].reserved >= 0,
        e.flavors@[i].confirmed >= 0,
        e.flavors@[i].reserved + e.flavors@[i].confirmed <= e.flavors@[i].stock,
        e.flavors@[i].available() >= 0,
{
}

/// A confirmation completed outside a backup moves exactly the confirmed
/// units out of `stock` and out of `reserved`; every other flavor is
/// untouched.
pub proof fn lemma_confirm_commits_to_stock(fl: Seq<FlavorRecord>, name: Seq<char>, amount: u32)
    requires
        unique_names(fl),
        has_flavor(fl, name),
        fl[idx_of(fl, name)].ok(),
        amount <= fl[idx_of(fl, name)].reserved,
    ensures
        ({
            let i = idx_of(fl, name);
            let after = sp_confirm(fl, false, name, amount);
            &&& after.len() == fl.len()
            &&& after[i].stock == fl[i].stock - amount
            &&& after[i].reserved == fl[i].reserved - amount
            &&& after[i].confirmed == fl[i].confirmed
            &&& forall|j: int| 0 <= j < fl.len() && j != i ==> after[j] == fl[j]
        }),
{
    let i = idx_of(fl, name);
    let after = sp_confirm(fl, false, name, amount);
    assert forall|j: int| 0 <= j < fl.len() && j != i implies after[j] == fl[j] by {
        assert(after[j] == fl.update(i, after[i])[j]);
    }
}

/// A completed cancellation within the reserved amount moves exactly the
/// canceled units out of `reserved`; `stock` is unchanged for every flavor.
pub proof fn lemma_cancel_releases_reserve(fl: Seq<FlavorRecord>, name: Seq<char>, amount: u32)
    requires
        unique_names(fl),
        has_flavor(fl, name),
        amount <= fl[idx_of(fl, name)].reserved,
    ensures
        ({
            let i = idx_of(fl, name);
            let after = sp_cancel(fl, name, amount);
            &&& after.len() == fl.len()
            &&& after[i].reserved == fl[i].reserved - amount
            &&& forall|j: int| 0 <= j < fl.len() ==> (#[trigger] after[j]).stock == fl[j].stock
            &&& forall|j: int| 0 <= j < fl.len() && j != i ==> after[j] == fl[j]
        }),
{
    let i = idx_of(fl, name);
    let after = sp_cancel(fl, name, amount);
    assert forall|j: int| 0 <= j < fl.len() implies (#[trigger] after[j]).stock
        == fl[j].stock by {
        if j != i {
            assert(after[j] == fl[j]);
        }
    }
}

/// While a backup is in progress no operation lowers any flavor's `stock`:
/// reserves and cancellations never touch it, and confirmations then stage
/// their units in `confirmed` instead.
pub proof fn lemma_backup_defers_stock(fl: Seq<FlavorRecord>, name: Seq<char>, amount: u32)
    ensures
        forall|j: int|
            0 <= j < fl.len() ==> (#[trigger] sp_confirm(fl, true, name, amount)[j]).stock
                == fl[j].stock,
        forall|j: int|
            0 <= j < fl.len() ==> (#[trigger] sp_cancel(fl, name, amount)[j]).stock
                == fl[j].stock,
        forall|j: int|
            0 <= j < fl.len() ==> (#[trigger] sp_reserve(fl, name, amount)[j]).stock
                == fl[j].stock,
{
    assert forall|j: int|
        0 <= j < fl.len() implies (#[trigger] sp_confirm(fl, true, name, amount)[j]).stock
        == fl[j].stock by {
        if has_flavor(fl, name) && j != idx_of(fl, name) {
            assert(sp_confirm(fl, true, name, amount)[j] == fl[j]);
        }
    }
    assert forall|j: int|
        0 <= j < fl.len() implies (#[trigger] sp_cancel(fl, name, amount)[j]).stock
        == fl[j].stock by {
        if has_flavor(fl, name) && j != idx_of(fl, name) {
            assert(sp_cancel(fl, name, amount)[j] == fl[j]);
        }
    }
    assert forall|j: int|
        0 <= j < fl.len() implies (#[trigger] sp_reserve(fl, name, amount)[j]).stock
        == fl[j].stock by {
        if has_flavor(fl, name) && j != idx_of(fl, name) {
            assert(sp_reserve(fl, name, amount)[j] == fl[j]);
        }
    }
}

/// Names never move: a reserve, cancel or confirm leaves every record's name
/// in place, so uniqueness survives.
proof fn lemma_same_names_unique(before: Seq<FlavorRecord>, after: Seq<FlavorRecord>)
    requires
        unique_names(before),
        after.len() == before.len(),
        forall|j: int| 0 <= j < after.len() ==> (#[trigger] after[j]).name@ == before[j].name@,
    ensures
        unique_names(after),
{
    assert forall|x: int, y: int| 0 <= x < y < after.len() implies after[x].name@
        != after[y].name@ by {
        assert(after[x].name@ == before[x].name@);
        assert(after[y].name@ == before[y].name@);
    }
}

/// Reserving a whole amount and confirming it leaves the very same inventory
/// as reserving it in two halves and confirming each half, when the whole
/// amount is available and no backup is running.
pub proof fn lemma_split_reserve_confirm(fl: Seq<FlavorRecord>, name: Seq<char>, a: u32, b: u32)
    requires
        unique_names(fl),
        forall|k: int| 0 <= k < fl.len() ==> (#[trigger] fl[k]).ok(),
        has_flavor(fl, name),
        a + b <= u32::MAX,
        fl[idx_of(fl, name)].available() >= a + b,
    ensures
        sp_confirm(sp_reserve(fl, name, (a + b) as u32), false, name, (a + b) as u32)
            == sp_confirm(
            sp_confirm(sp_reserve(sp_reserve(fl, name, a), name, b), false, name, a),
            false,
            name,
            b,
        ),
{
    let i = idx_of(fl, name);
    let rec = fl[i];
    assert(rec.ok());

    // The one-step path.
    let w1 = sp_reserve(fl, name, (a + b) as u32);
    assert(w1 == fl.update(i, (FlavorRecord { reserved: (rec.reserved + a + b) as u32, ..rec })));
    lemma_same_names_unique(fl, w1);
    lemma_idx_of_unique(w1, name, i);
    assert(w1[i].reserved == rec.reserved + a + b);
    let w2 = sp_confirm(w1, false, name, (a + b) as u32);
    assert(w2 == w1.update(
        i,
        (FlavorRecord {
            stock: (rec.stock - a - b) as u32,
            reserved: rec.reserved,
            ..rec
        }),
    ));

    // The two-halves path.
    let s1 = sp_reserve(fl, name, a);
    assert(s1 == fl.update(i, (FlavorRecord { reserved: (rec.reserved + a) as u32, ..rec })));
    lemma_same_names_unique(fl, s1);
    lemma_idx_of_unique(s1, name, i);
    assert(s1[i].available() >= b);
    let s2 = sp_reserve(s1, name, b);
    assert(s2 == s1.update(i, (FlavorRecord { reserved: (rec.reserved + a + b) as u32, ..rec })));
    lemma_same_names_unique(fl, s2);
    lemma_idx_of_unique(s2, name, i);
    let t1 = sp_confirm(s2, false, name, a);
    assert(t1 == s2.update(
        i,
        (FlavorRecord {
            stock: (rec.stock - a) as u32,
            reserved: (rec.reserved + b) as u32,
            ..rec
        }),
    ));
    lemma_same_names_unique(fl, t1);
    lemma_idx_of_unique(t1, name, i);
    let t2 = sp_confirm(t1, false, name, b);
    assert(t2 == t1.update(
        i,
        (FlavorRecord {
            stock: (rec.stock - a - b) as u32,
            reserved: rec.reserved,
            ..rec
        }),
    ));

    assert(w2 =~= t2);
}

/// A name is in the records exactly when it is in their pure view.
proof fn lemma_recs_view_has(s: Seq<FlavorRecord>, name: Seq<char>)
    ensures
        has_flavor(s, name) == has_flavor_v(recs_view(s), name),
{
    if has_flavor(s, name) {
        let i = choose|i: int| 0 <= i < s.len() && s[i].name@ == name;
        assert(recs_view(s)[i].name == name);
        assert(has_flavor_v(recs_view(s), name));
    }
    if has_flavor_v(recs_view(s), name) {
        let i = choose|i: int| 0 <= i < recs_view(s).len() && recs_view(s)[i].name == name;
        assert(s[i].name@ == name);
        assert(has_flavor(s, name));
    }
}

/// With unique names the pure view picks the same index.
proof fn lemma_recs_view_idx(s: Seq<FlavorRecord>, name: Seq<char>, i: int)
    requires
        unique_names(s),
        0 <= i < s.len(),
        s[i].name@ == name,
    ensures
        idx_of_v(recs_view(s), name) == i,
{
    assert(recs_view(s)[i].name == name);
    assert(has_flavor_v(recs_view(s), name));
    let j = idx_of_v(recs_view(s), name);
    if j != i {
        assert(s[j].name@ == recs_view(s)[j].name);
        if j < i {
            assert(s[j].name@ != s[i].name@);
        } else {
            assert(s[i].name@ != s[j].name@);
        }
    }
}

/// An update that keeps its record within bounds keeps the engine invariant:
/// names are untouched, the other records are untouched.
proof fn lemma_update_keeps_wf(before: Seq<FlavorRecord>, after: Seq<FlavorRecord>, i: int)
    requires
        unique_names(before),
        forall|k: int| 0 <= k < before.len() ==> (#[trigger] before[k]).ok(),
        0 <= i < before.len(),
        after.len() == before.len(),
        forall|k: int| 0 <= k < before.len() && k != i ==> after[k] == before[k],
        after[i].name@ == before[i].name@,
        after[i].ok(),
    ensures
        unique_names(after),
        forall|k: int| 0 <= k < after.len() ==> (#[trigger] after[k]).ok(),
{
    assert forall|x: int, y: int| 0 <= x < y < after.len() implies after[x].name@
        != after[y].name@ by {
        assert(after[x].name@ == before[x].name@);
        assert(after[y].name@ == before[y].name@);
    }
}

} // verus!
