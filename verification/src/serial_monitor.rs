//! Events passed between one monitored serial device and the monitor's
//! main loop. The device I/O itself lives outside the library.

use vstd::prelude::*;

verus! {

/// What a monitored device reports to the main loop.
#[derive(Debug, Clone, PartialEq, Eq)]
pub enum Event {
    LineReceipt(String, Vec<u8>),
    Closed(String),
}

/// What the main loop asks a monitored device to do.
#[derive(Debug, Clone, PartialEq, Eq)]
pub enum RequestToDevice {
    Data(Vec<u8>),
}

/// The devices the monitor currently tracks, by path: the routing
/// decisions of its request demultiplexer. The queue to each device's
/// task lives with the transport layer, under the index this registry
/// reports.
pub struct DeviceRegistry {
    paths: Vec<String>,
}

impl View for DeviceRegistry {
    type V = Seq<Seq<char>>;

    closed spec fn view(&self) -> Seq<Seq<char>> {
        self.paths@.map_values(|p: String| p@)
    }
}

impl DeviceRegistry {
    /// No path is tracked twice.
    pub open spec fn wf(&self) -> bool {
        self@.no_duplicates()
    }

    pub fn new() -> (r: Self)
        ensures
            r@ == Seq::<Seq<char>>::empty(),
            r.wf(),
    {
        let r = DeviceRegistry { paths: Vec::new() };
        proof {
            assert(r@ =~= Seq::<Seq<char>>::empty());
        }
        r
    }

    /// The index a device's requests route to, if it is tracked.
    pub fn find_device(&self, path: &String) -> (r: Option<usize>)
        ensures
            match r {
                Some(i) => i < self@.len() && self@[i as int] == path@,
                None => !self@.contains(path@),
            },
    {
        let mut i: usize = 0;
        while i < self.paths.len()
            invariant
                i <= self.paths.len(),
                forall|k: int| 0 <= k < i ==> self@[k] != path@,
            decreases self.paths.len() - i,
        {
            if self.paths[i] == *path {
                return Some(i);
            }
            i += 1;
        }
        None
    }

    /// Whether a device is tracked.
    pub fn has_device(&self, path: &String) -> (r: bool)
        ensures
            r == self@.contains(path@),
    {
        match self.find_device(path) {
            Some(_) => {
                true
            },
            None => false,
        }
    }

    /// Track one more device; a path already tracked is left alone and
    /// reported.
    pub fn add_device(&mut self, path: String) -> (added: bool)
        requires
            old(self).wf(),
        ensures
            final(self).wf(),
            added == !old(self)@.contains(path@),
            final(self)@ == (if old(self)@.contains(path@) {
                old(self)@
            } else {
                old(self)@.push(path@)
            }),
    {
        match self.find_device(&path) {
            Some(_) => false,
            None => {
                let ghost pre = self@;
                self.paths.push(path);
                proof {
                    assert(self@ =~= pre.push(self.paths@.last()@));
                    assert forall|a: int, b: int|
                        0 <= a < b < self@.len() implies self@[a] != self@[b] by {
                        if b == pre.len() {
                            assert(self@[a] == pre[a]);
                        }
                    }
                }
                true
            },
        }
    }

    /// Stop tracking a device. Indices above it shift down by one, as
    /// the transport layer's queue table must too.
    pub fn remove_device(&mut self, path: &String) -> (removed: bool)
        requires
            old(self).wf(),
        ensures
            final(self).wf(),
            removed == old(self)@.contains(path@),
            ({
                if old(self)@.contains(path@) {
                    exists|i: int|
                        0 <= i < old(self)@.len() && old(self)@[i] == path@ && final(self)@ == old(
                            self,
                        )@.remove(i)
                } else {
                    final(self)@ == old(self)@
                }
            }),
    {
        match self.find_device(path) {
            Some(i) => {
                let ghost pre = self@;
                self.paths.remove(i);
                proof {
                    assert(pre[i as int] == path@);
                    assert(self@ =~= pre.remove(i as int));
                    assert forall|a: int, b: int|
                        0 <= a < b < self@.len() implies self@[a] != self@[b] by {
                        if a < i as int {
                            assert(self@[a] == pre[a]);
                        } else {
                            assert(self@[a] == pre[a + 1]);
                        }
                        if b < i as int {
                            assert(self@[b] == pre[b]);
                        } else {
                            assert(self@[b] == pre[b + 1]);
                        }
                    }
                }
                true
            },
            None => false,
        }
    }
}

} // verus!
