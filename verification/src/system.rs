//! The integer side of a system snapshot: disk space summed over the disks,
//! and whether the inference server counts as reachable.

use crate::session::{is_success, is_success_status};
use vstd::prelude::*;

verus! {

/// The space of one disk, in bytes.
#[derive(Debug, Clone, Copy, PartialEq, Eq, Structural)]
pub struct DiskSpace {
    pub total: u64,
    pub available: u64,
}

/// The space of all disks together.
#[derive(Debug, Clone, Copy, PartialEq, Eq, Structural)]
pub struct DiskUsage {
    pub total: u64,
    pub used: u64,
}

/// The sum of the disks' total space.
pub open spec fn total_space(disks: Seq<DiskSpace>) -> int
    decreases disks.len(),
{
    if disks.len() == 0 {
        0
    } else {
        total_space(disks.drop_last()) + disks.last().total
    }
}

/// The sum of the disks' used space, the space of each that is not
/// available.
pub open spec fn used_space(disks: Seq<DiskSpace>) -> int
    decreases disks.len(),
{
    if disks.len() == 0 {
        0
    } else {
        used_space(disks.drop_last()) + (disks.last().total - disks.last().available)
    }
}

/// Whether every disk has at most as much space available as it has in all.
pub open spec fn consistent(disks: Seq<DiskSpace>) -> bool {
    forall|i: int| 0 <= i < disks.len() ==> (#[trigger] disks[i]).available <= disks[i].total
}

/// The total is the sum of non-negative terms: it grows with every disk.
pub proof fn lemma_total_grows(disks: Seq<DiskSpace>, n: int)
    requires
        0 <= n <= disks.len(),
    ensures
        0 <= total_space(disks.take(n)) <= total_space(disks),
    decreases disks.len() - n,
{
    if n == disks.len() {
        assert(disks.take(n) =~= disks);
        lemma_total_grows_from_zero(disks);
    } else {
        lemma_total_grows(disks, n + 1);
        assert(disks.take(n + 1).drop_last() =~= disks.take(n));
        lemma_total_grows_from_zero(disks.take(n));
    }
}

proof fn lemma_total_grows_from_zero(disks: Seq<DiskSpace>)
    ensures
        0 <= total_space(disks),
    decreases disks.len(),
{
    if disks.len() > 0 {
        lemma_total_grows_from_zero(disks.drop_last());
    }
}

/// Sums the space of `disks`. The sums exist where the disks are consistent
/// and their total space fits 64 bits; else the result is `None`.
pub fn disk_usage(disks: &Vec<DiskSpace>) -> (usage: Option<DiskUsage>)
    ensures
        usage.is_some() == (consistent(disks@) && total_space(disks@) <= u64::MAX),
        usage matches Some(sums) ==> sums.total == total_space(disks@) && sums.used == used_space(
            disks@,
        ) && sums.used <= sums.total,
{
    let mut total: u64 = 0;
    let mut used: u64 = 0;
    let mut i: usize = 0;
    assert(disks@.take(0) =~= Seq::<DiskSpace>::empty());
    while i < disks.len()
        invariant
            i <= disks.len(),
            consistent(disks@.take(i as int)),
            total == total_space(disks@.take(i as int)),
            used == used_space(disks@.take(i as int)),
            used <= total,
        decreases disks.len() - i,
    {
        let disk = disks[i];
        proof {
            assert(disks@.take(i + 1).drop_last() =~= disks@.take(i as int));
            assert(disks@.take(i + 1).last() == disk);
            lemma_total_grows(disks@, i + 1);
        }
        if disk.available > disk.total || disk.total > u64::MAX - total {
            proof {
                if disk.available > disk.total {
                    assert(disks@[i as int] == disk);
                }
            }
            return None;
        }
        total = total + disk.total;
        used = used + (disk.total - disk.available);
        i += 1;
        proof {
            assert forall|j: int| 0 <= j < i implies (#[trigger] disks@.take(i as int)[j]).available
                <= disks@.take(i as int)[j].total by {
                if j < i - 1 {
                    assert(disks@.take(i - 1)[j] == disks@.take(i as int)[j]);
                }
            }
        }
    }
    assert(disks@.take(i as int) =~= disks@);
    Some(DiskUsage { total, used })
}

/// The word for the server's state, given the status of a probe request, or
/// `None` where the request itself failed.
pub open spec fn server_status_word(probe: Option<u16>) -> Seq<char> {
    match probe {
        Some(status) if is_success_status(status) => "online"@,
        _ => "offline"@,
    }
}

/// Says whether the inference server counts as reachable: it does where the
/// probe got a response with a success status.
pub fn server_status(probe: Option<u16>) -> (word: String)
    ensures
        word@ == server_status_word(probe),
{
    match probe {
        Some(status) => {
            if is_success(status) {
                "online".to_owned()
            } else {
                "offline".to_owned()
            }
        },
        None => "offline".to_owned(),
    }
}

} // verus!
