//! File-descriptor tables. An entry names an open object by its handle; two
//! entries with the same handle share the object.

use vstd::prelude::*;

use crate::errno::Errno;
use crate::handle_map::HandleMap;

verus! {

/// A file descriptor as programs see it.
pub type RawFd = i32;

/// Whether `fd` is the lowest descriptor that `table` leaves free.
pub open spec fn lowest_free(table: Map<i32, u64>, fd: i32) -> bool {
    &&& 0 <= fd
    &&& !table.contains_key(fd)
    &&& forall|k: i32| 0 <= k < fd ==> #[trigger] table.contains_key(k)
}

/// Whether `table` leaves no descriptor free.
pub open spec fn full(table: Map<i32, u64>) -> bool {
    forall|k: i32| 0 <= k ==> #[trigger] table.contains_key(k)
}

/// `table` with its entries for the standard descriptors 0, 1 and 2 alone.
pub open spec fn standard_only(table: Map<i32, u64>) -> Map<i32, u64> {
    Map::new(|k: i32| 0 <= k < 3 && table.contains_key(k), |k: i32| table[k])
}

/// There is at most one lowest free descriptor, and none if the table is full.
pub proof fn lemma_lowest_free_unique(table: Map<i32, u64>, a: i32, b: i32)
    requires
        lowest_free(table, a),
        lowest_free(table, b),
    ensures
        a == b,
        !full(table),
{
    if a < b {
        assert(table.contains_key(a));
    }
    if b < a {
        assert(table.contains_key(b));
    }
    assert(!table.contains_key(a));
}

/// The open files of a task.
pub struct FdTable {
    map: HandleMap,
}

impl View for FdTable {
    type V = Map<i32, u64>;

    /// The handles of the open objects by descriptor.
    closed spec fn view(&self) -> Map<i32, u64> {
        self.map@
    }
}

impl FdTable {
    /// A table with nothing open.
    pub fn new() -> (r: Self)
        ensures
            r@ == Map::<i32, u64>::empty(),
    {
        FdTable { map: HandleMap::with_seeds(0, 0, 0, 0) }
    }

    /// A table with the objects of the standard descriptors open.
    pub fn with_stdio(stdin: u64, stdout: u64, stderr: u64) -> (r: Self)
        ensures
            r@ == map![0i32 => stdin, 1i32 => stdout, 2i32 => stderr],
    {
        let mut map = HandleMap::with_seeds(0, 0, 0, 0);
        let _ = map.insert(0, stdin);
        let _ = map.insert(1, stdout);
        let _ = map.insert(2, stderr);
        assert(map@ =~= map![0i32 => stdin, 1i32 => stdout, 2i32 => stderr]);
        FdTable { map }
    }

    /// A table of its own with the same entries: the objects are shared, the
    /// table is not.
    pub fn deep_copy(&self) -> (r: Self)
        ensures
            r@ == self@,
    {
        let items = self.map.items();
        let mut map = HandleMap::with_seeds(0, 0, 0, 0);
        let mut i: usize = 0;
        while i < items.len()
            invariant
                crate::handle_map::lists(items@, self@),
                i <= items@.len(),
                forall|k: i32|
                    #[trigger] map@.contains_key(k) <==> exists|j: int|
                        0 <= j < i && (#[trigger] items@[j]).0 == k,
                forall|k: i32| #[trigger] map@.contains_key(k) ==> map@[k] == self@[k],
            decreases items@.len() - i,
        {
            let (fd, obj) = items[i];
            let ghost before = map@;
            let _ = map.insert(fd, obj);
            assert forall|k: i32| #[trigger] map@.contains_key(k) <==> exists|j: int|
                0 <= j < i + 1 && (#[trigger] items@[j]).0 == k by {
                if k == fd {
                    assert(items@[i as int].0 == k);
                } else if before.contains_key(k) {
                    let j = choose|j: int| 0 <= j < i && (#[trigger] items@[j]).0 == k;
                    assert(items@[j].0 == k);
                }
            }
            i += 1;
        }
        assert forall|k: i32| #[trigger] map@.contains_key(k) == self@.contains_key(k) by {
            if self@.contains_key(k) {
                let j = choose|j: int| 0 <= j < items@.len() && (#[trigger] items@[j]).0 == k;
                assert(items@[j].0 == k);
            }
        }
        assert(map@ =~= self@);
        FdTable { map }
    }

    /// A table of its own with the standard descriptors' entries alone.
    pub fn standard_copy(&self) -> (r: Self)
        ensures
            r@ == standard_only(self@),
    {
        let mut map = HandleMap::with_seeds(0, 0, 0, 0);
        let mut i: i32 = 0;
        while i < 3
            invariant
                0 <= i <= 3,
                forall|k: i32|
                    #[trigger] map@.contains_key(k) <==> 0 <= k < i && self@.contains_key(k),
                forall|k: i32| #[trigger] map@.contains_key(k) ==> map@[k] == self@[k],
            decreases 3 - i,
        {
            let ghost before = map@;
            match self.map.get(i) {
                Some(obj) => {
                    let _ = map.insert(i, obj);
                    assert(map@ == before.insert(i, obj));
                },
                None => {},
            }
            assert forall|k: i32| #[trigger] map@.contains_key(k) implies map@[k] == self@[k] && 0
                <= k < i + 1 && self@.contains_key(k) by {
                assert(before.contains_key(k) || k == i);
            }
            assert forall|k: i32| 0 <= k < i + 1 && self@.contains_key(k) implies
                #[trigger] map@.contains_key(k) by {
                assert(k == i || before.contains_key(k));
            }
            i += 1;
        }
        assert(map@ =~= standard_only(self@));
        FdTable { map }
    }

    /// Number of open descriptors.
    pub fn len(&self) -> (r: usize)
        ensures
            r == self@.dom().len(),
    {
        self.map.len()
    }

    /// The object that `fd` names.
    pub fn get_object(&self, fd: RawFd) -> (r: Result<u64, Errno>)
        ensures
            r == (if self@.contains_key(fd) {
                Ok(self@[fd])
            } else {
                Err(Errno::Badf)
            }),
    {
        match self.map.get(fd) {
            Some(obj) => Ok(obj),
            None => Err(Errno::Badf),
        }
    }

    /// The lowest descriptor that is free.
    fn new_fd(&self) -> (r: Result<RawFd, Errno>)
        ensures
            match r {
                Ok(fd) => lowest_free(self@, fd),
                Err(e) => e == Errno::Overflow && full(self@),
            },
    {
        let mut fd: RawFd = 0;
        loop
            invariant
                0 <= fd,
                forall|k: i32| 0 <= k < fd ==> #[trigger] self@.contains_key(k),
            decreases i32::MAX - fd,
        {
            if !self.map.contains_key(fd) {
                return Ok(fd);
            } else if fd == RawFd::MAX {
                return Err(Errno::Overflow);
            }
            fd = fd + 1;
        }
    }

    /// Opens `obj` under the lowest free descriptor.
    pub fn insert_object(&mut self, obj: u64) -> (r: Result<RawFd, Errno>)
        ensures
            match r {
                Ok(fd) => lowest_free(old(self)@, fd) && final(self)@ == old(self)@.insert(fd, obj),
                Err(e) => e == Errno::Overflow && full(old(self)@) && final(self)@ == old(self)@,
            },
    {
        match self.new_fd() {
            Ok(fd) => {
                let _ = self.map.insert(fd, obj);
                Ok(fd)
            },
            Err(e) => Err(e),
        }
    }

    /// Opens the object of `fd` once more, under the lowest free descriptor.
    pub fn dup_object(&mut self, fd: RawFd) -> (r: Result<RawFd, Errno>)
        ensures
            match r {
                Ok(new) => {
                    &&& old(self)@.contains_key(fd)
                    &&& lowest_free(old(self)@, new)
                    &&& final(self)@ == old(self)@.insert(new, old(self)@[fd])
                },
                Err(e) => {
                    &&& final(self)@ == old(self)@
                    &&& e == (if old(self)@.contains_key(fd) {
                        Errno::Overflow
                    } else {
                        Errno::Inval
                    })
                    &&& old(self)@.contains_key(fd) ==> full(old(self)@)
                },
            },
    {
        let obj: u64 = match self.map.get(fd) {
            Some(obj) => obj,
            None => {
                return Err(Errno::Inval);
            },
        };
        match self.new_fd() {
            Ok(new) => {
                let _ = self.map.insert(new, obj);
                Ok(new)
            },
            Err(e) => Err(e),
        }
    }

    /// Opens the object of `fd1` once more, under `fd2`.
    pub fn dup_object2(&mut self, fd1: RawFd, fd2: RawFd) -> (r: Result<RawFd, Errno>)
        ensures
            r == (if !old(self)@.contains_key(fd1) {
                Err(Errno::Badf)
            } else if old(self)@.contains_key(fd2) {
                Err(Errno::Mfile)
            } else {
                Ok(fd2)
            }),
            r is Ok ==> final(self)@ == old(self)@.insert(fd2, old(self)@[fd1]),
            r is Err ==> final(self)@ == old(self)@,
    {
        let obj: u64 = match self.map.get(fd1) {
            Some(obj) => obj,
            None => {
                return Err(Errno::Badf);
            },
        };
        if self.map.contains_key(fd2) {
            return Err(Errno::Mfile);
        }
        let _ = self.map.insert(fd2, obj);
        Ok(fd2)
    }

    /// Closes `fd` and returns the object it named.
    pub fn remove_object(&mut self, fd: RawFd) -> (r: Result<u64, Errno>)
        ensures
            r == (if old(self)@.contains_key(fd) {
                Ok(old(self)@[fd])
            } else {
                Err(Errno::Badf)
            }),
            final(self)@ == old(self)@.remove(fd),
    {
        match self.map.remove(fd) {
            Some(obj) => Ok(obj),
            None => Err(Errno::Badf),
        }
    }
}

/// Closing a descriptor that was just opened restores the table: opening and
/// closing are inverse.
pub proof fn lemma_insert_remove(table: Map<i32, u64>, fd: i32, obj: u64)
    requires
        lowest_free(table, fd),
    ensures
        table.insert(fd, obj).remove(fd) == table,
        table.insert(fd, obj)[fd] == obj,
{
    assert(table.insert(fd, obj).remove(fd) =~= table);
}

/// A table that is not full has a lowest free descriptor, at most as large as any free one.
pub proof fn lemma_lowest_free_exists(table: Map<i32, u64>, k: i32)
    requires
        0 <= k,
        !table.contains_key(k),
    ensures
        !full(table),
        exists|fd: i32| fd <= k && #[trigger] lowest_free(table, fd),
    decreases k,
{
    if exists|j: i32| 0 <= j < k && !#[trigger] table.contains_key(j) {
        let j = choose|j: i32| 0 <= j < k && !#[trigger] table.contains_key(j);
        lemma_lowest_free_exists(table, j);
    } else {
        assert(lowest_free(table, k));
    }
}

/// The lowest free descriptor is free, is not negative, and every smaller one is taken.
pub proof fn lemma_lowest_free_effect(table: Map<i32, u64>, fd: i32, k: i32)
    requires
        lowest_free(table, fd),
    ensures
        0 <= fd,
        !table.contains_key(fd),
        0 <= k < fd ==> table.contains_key(k),
        0 <= k && !table.contains_key(k) ==> fd <= k,
{
}

/// A table with the standard descriptors alone has those of 0, 1 and 2 that were open, with
/// their objects, and no other.
pub proof fn lemma_standard_only_effect(table: Map<i32, u64>, k: i32)
    ensures
        standard_only(table).contains_key(k) <==> (k == 0 || k == 1 || k == 2)
            && table.contains_key(k),
        standard_only(table).contains_key(k) ==> standard_only(table)[k] == table[k],
{
}

/// What is opened gets the lowest free descriptor and can be read there; all else stays. It
/// fails only if no descriptor is free.
pub proof fn lemma_open_effect(t: &mut FdTable, obj: u64, r: Result<RawFd, Errno>, k: i32)
    requires
        call_ensures(FdTable::insert_object, (t, obj), r),
    ensures
        r matches Ok(fd) ==> {
            &&& fd >= 0
            &&& !old(t)@.contains_key(fd)
            &&& 0 <= k < fd ==> old(t)@.contains_key(k)
            &&& final(t)@.contains_key(fd)
            &&& final(t)@[fd] == obj
            &&& k != fd ==> final(t)@.contains_key(k) == old(t)@.contains_key(k) && final(t)@[k]
                == old(t)@[k]
        },
        r matches Err(e) ==> e is Overflow && final(t)@ == old(t)@ && (k >= 0 ==> old(
            t,
        )@.contains_key(k)),
{
}

/// A descriptor that is doubled names the same object under the lowest free descriptor, or
/// under the one that was asked for if that is free; the first one stays open. What is not open
/// is not doubled, and what is taken is not overwritten.
pub proof fn lemma_double_effect(
    t: &mut FdTable,
    u: &mut FdTable,
    fd: RawFd,
    fd2: RawFd,
    r: Result<RawFd, Errno>,
    s: Result<RawFd, Errno>,
)
    requires
        call_ensures(FdTable::dup_object, (t, fd), r),
        call_ensures(FdTable::dup_object2, (u, fd, fd2), s),
    ensures
        r matches Ok(new) ==> {
            &&& old(t)@.contains_key(fd)
            &&& !old(t)@.contains_key(new)
            &&& forall|k: i32| 0 <= k < new ==> #[trigger] old(t)@.contains_key(k)
            &&& final(t)@ == old(t)@.insert(new, old(t)@[fd])
        },
        r is Err ==> final(t)@ == old(t)@,
        !old(t)@.contains_key(fd) ==> r == Err::<RawFd, Errno>(Errno::Inval),
        s is Ok <==> old(u)@.contains_key(fd) && !old(u)@.contains_key(fd2),
        s matches Ok(new) ==> new == fd2 && final(u)@ == old(u)@.insert(fd2, old(u)@[fd]),
        s is Err ==> final(u)@ == old(u)@,
        !old(u)@.contains_key(fd) ==> s == Err::<RawFd, Errno>(Errno::Badf),
        old(u)@.contains_key(fd) && old(u)@.contains_key(fd2) ==> s == Err::<RawFd, Errno>(
            Errno::Mfile,
        ),
{
}

/// What is closed gives back its object and is free again; reading gives the object as long as
/// it is open. What is not open cannot be read or closed.
pub proof fn lemma_close_effect(
    t: &mut FdTable,
    fd: RawFd,
    r: Result<u64, Errno>,
    read: Result<u64, Errno>,
)
    requires
        call_ensures(FdTable::remove_object, (t, fd), r),
        call_ensures(FdTable::get_object, (old(t), fd), read),
    ensures
        r == read,
        old(t)@.contains_key(fd) ==> r == Ok::<u64, Errno>(old(t)@[fd]),
        !old(t)@.contains_key(fd) ==> r == Err::<u64, Errno>(Errno::Badf),
        !final(t)@.contains_key(fd),
        forall|k: i32|
            k != fd ==> #[trigger] final(t)@.contains_key(k) == old(t)@.contains_key(k)
                && final(t)@[k] == old(t)@[k],
{
}

/// A copy of a table has the same entries, and one with the standard descriptors alone no
/// others.
pub proof fn lemma_copies_effect(t: FdTable, a: FdTable, b: FdTable, k: i32)
    requires
        call_ensures(FdTable::deep_copy, (&t,), a),
        call_ensures(FdTable::standard_copy, (&t,), b),
    ensures
        a@.contains_key(k) == t@.contains_key(k),
        a@.contains_key(k) ==> a@[k] == t@[k],
        b@.contains_key(k) <==> 0 <= k <= 2 && t@.contains_key(k),
        b@.contains_key(k) ==> b@[k] == t@[k],
{
}

} // verus!
