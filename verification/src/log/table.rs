//! The streams that are being captured, by connection and direction.
use super::Dir;
use crate::stream::{Stream, StreamModel};
use vstd::prelude::*;

verus! {

/// A stream that is being captured, and whose it is.
pub struct Held {
    pub conn: u64,
    pub dir: Dir,
    /// the transport
    pub proto: String,
    /// the listener
    pub name: String,
    pub peer: String,
    pub stream: Stream,
}

/// What is known of a stream that is being captured.
pub struct HeldModel {
    pub proto: Seq<char>,
    pub name: Seq<char>,
    pub peer: Seq<char>,
    pub stream: StreamModel,
}

impl View for Held {
    type V = HeldModel;

    open spec fn view(&self) -> HeldModel {
        HeldModel {
            proto: self.proto@,
            name: self.name@,
            peer: self.peer@,
            stream: self.stream@,
        }
    }
}

/// The streams that are being captured: none twice.
pub struct Table {
    held: Vec<Held>,
}

/// Whether the stream of that connection and direction stands at `i`.
pub open spec fn is_at(held: Seq<Held>, key: (u64, Dir), i: int) -> bool {
    0 <= i < held.len() && (held[i].conn, held[i].dir) == key
}

/// Whether a stream is listed.
pub open spec fn lists(held: Seq<Held>, key: (u64, Dir)) -> bool {
    exists|i: int| is_at(held, key, i)
}

/// Where a stream is listed.
pub open spec fn place(held: Seq<Held>, key: (u64, Dir)) -> int {
    choose|i: int| is_at(held, key, i)
}

/// Whether no stream is listed twice.
pub open spec fn distinct(held: Seq<Held>) -> bool {
    forall|i: int, j: int, key: (u64, Dir)| #[trigger]
        is_at(held, key, i) && #[trigger] is_at(held, key, j) ==> i == j
}

/// What a list says of each stream in it.
pub open spec fn as_map(held: Seq<Held>) -> Map<(u64, Dir), HeldModel> {
    Map::new(
        |key: (u64, Dir)| lists(held, key),
        |key: (u64, Dir)| held[place(held, key)]@,
    )
}

impl View for Table {
    type V = Map<(u64, Dir), HeldModel>;

    closed spec fn view(&self) -> Map<(u64, Dir), HeldModel> {
        as_map(self.held@)
    }
}

proof fn found_at(held: Seq<Held>, key: (u64, Dir), i: int)
    requires
        distinct(held),
        is_at(held, key, i),
    ensures
        as_map(held).contains_key(key),
        as_map(held)[key] == held[i]@,
{
    assert(is_at(held, key, place(held, key)));
}

proof fn pushed(held: Seq<Held>, h: Held)
    requires
        distinct(held),
        !lists(held, (h.conn, h.dir)),
    ensures
        distinct(held.push(h)),
        as_map(held.push(h)) == as_map(held).insert((h.conn, h.dir), h@),
{
    let new = held.push(h);
    let key = (h.conn, h.dir);
    assert forall|i: int, k: (u64, Dir)| #[trigger] is_at(new, k, i) implies if i < held.len() {
        is_at(held, k, i) && k != key
    } else {
        k == key
    } by {
        if i < held.len() {
            assert(is_at(held, k, i));
        }
    }
    assert forall|i: int, j: int, k: (u64, Dir)| #[trigger]
        is_at(new, k, i) && #[trigger] is_at(new, k, j) implies i == j by {
        if i < held.len() && j < held.len() {
            assert(is_at(held, k, i) && is_at(held, k, j));
        }
    }
    assert(is_at(new, key, held.len() as int));
    assert forall|k: (u64, Dir)| lists(held, k) implies lists(new, k) by {
        assert(is_at(new, k, place(held, k)));
    }
    assert forall|k: (u64, Dir)| lists(new, k) implies as_map(new)[k] == as_map(held).insert(
        key,
        h@,
    )[k] by {
        let i = place(new, k);
        assert(is_at(new, k, i));
        if i < held.len() {
            found_at(held, k, i);
        }
    }
    assert(as_map(new) =~= as_map(held).insert(key, h@));
}

proof fn taken(held: Seq<Held>, at: int)
    requires
        distinct(held),
        0 <= at < held.len(),
    ensures
        ({
            let rest = held.update(at, held.last()).drop_last();
            let key = (held[at].conn, held[at].dir);
            distinct(rest) && as_map(rest) == as_map(held).remove(key)
        }),
{
    let rest = held.update(at, held.last()).drop_last();
    let key = (held[at].conn, held[at].dir);
    let from = |i: int|
        if i == at {
            held.len() - 1
        } else {
            i
        };
    assert(is_at(held, key, at));
    assert forall|i: int, k: (u64, Dir)| #[trigger] is_at(rest, k, i) implies is_at(
        held,
        k,
        from(i),
    ) && k != key by {
        assert(is_at(held, k, from(i)));
    }
    assert forall|i: int, j: int, k: (u64, Dir)| #[trigger]
        is_at(rest, k, i) && #[trigger] is_at(rest, k, j) implies i == j by {
        assert(is_at(held, k, from(i)) && is_at(held, k, from(j)));
    }
    assert forall|k: (u64, Dir)| lists(held, k) && k != key implies lists(rest, k) by {
        let i = place(held, k);
        assert(is_at(held, k, i));
        assert(is_at(
            rest,
            k,
            if i == held.len() - 1 {
                at
            } else {
                i
            },
        ));
    }
    assert forall|k: (u64, Dir)| lists(rest, k) implies as_map(rest)[k] == as_map(held)[k] by {
        let i = place(rest, k);
        assert(is_at(rest, k, i));
        found_at(held, k, from(i));
    }
    assert(!lists(rest, key)) by {
        if lists(rest, key) {
            assert(is_at(rest, key, place(rest, key)));
        }
    }
    assert(as_map(rest) =~= as_map(held).remove(key));
}

impl Table {
    /// No stream is held twice.
    pub closed spec fn wf(self) -> bool {
        distinct(self.held@)
    }

    /// A table that holds no stream.
    pub fn new() -> (t: Self)
        ensures
            t.wf(),
            t@ == Map::<(u64, Dir), HeldModel>::empty(),
    {
        let t = Table { held: Vec::new() };
        assert(t@ =~= Map::<(u64, Dir), HeldModel>::empty()) by {
            assert forall|k: (u64, Dir)| !lists(t.held@, k) by {
                if lists(t.held@, k) {
                    assert(is_at(t.held@, k, place(t.held@, k)));
                }
            }
        }
        t
    }

    fn find(&self, conn: u64, dir: Dir) -> (i: Option<usize>)
        ensures
            match i {
                Some(i) => is_at(self.held@, (conn, dir), i as int),
                None => !lists(self.held@, (conn, dir)),
            },
    {
        let mut i: usize = 0;
        while i < self.held.len()
            invariant
                i <= self.held.len(),
                forall|j: int| 0 <= j < i ==> !#[trigger] is_at(self.held@, (conn, dir), j),
            decreases self.held.len() - i,
        {
            if self.held[i].conn == conn && self.held[i].dir == dir {
                return Some(i);
            }
            i += 1;
        }
        None
    }

    /// Whether a stream is held.
    pub fn contains(&self, conn: u64, dir: Dir) -> (b: bool)
        requires
            self.wf(),
        ensures
            b == self@.contains_key((conn, dir)),
    {
        match self.find(conn, dir) {
            Some(i) => {
                proof {
                    found_at(self.held@, (conn, dir), i as int);
                }
                true
            },
            None => false,
        }
    }

    /// How many bytes of a stream have arrived.
    pub fn total(&self, conn: u64, dir: Dir) -> (n: Option<u64>)
        requires
            self.wf(),
        ensures
            match n {
                Some(n) => self@.contains_key((conn, dir)) && n == self@[(conn, dir)].stream.total,
                None => !self@.contains_key((conn, dir)),
            },
    {
        match self.find(conn, dir) {
            Some(i) => {
                proof {
                    found_at(self.held@, (conn, dir), i as int);
                }
                Some(self.held[i].stream.total())
            },
            None => None,
        }
    }

    /// Holds a stream that is not held yet.
    pub fn insert(&mut self, h: Held)
        requires
            old(self).wf(),
            !old(self)@.contains_key((h.conn, h.dir)),
        ensures
            final(self).wf(),
            final(self)@ == old(self)@.insert((h.conn, h.dir), h@),
    {
        proof {
            pushed(self.held@, h);
        }
        self.held.push(h);
    }

    /// Gives up a stream.
    pub fn remove(&mut self, conn: u64, dir: Dir) -> (held: Option<Held>)
        requires
            old(self).wf(),
        ensures
            final(self).wf(),
            match held {
                Some(h) => {
                    &&& old(self)@.contains_key((conn, dir))
                    &&& h.conn == conn && h.dir == dir
                    &&& h@ == old(self)@[(conn, dir)]
                    &&& final(self)@ == old(self)@.remove((conn, dir))
                },
                None => !old(self)@.contains_key((conn, dir)) && final(self)@ == old(self)@,
            },
    {
        match self.find(conn, dir) {
            Some(i) => {
                proof {
                    found_at(self.held@, (conn, dir), i as int);
                    taken(self.held@, i as int);
                }
                let ghost before = self.held@;
                let h = self.held.swap_remove(i);
                assert(self.held@ =~= before.update(i as int, before.last()).drop_last());
                Some(h)
            },
            None => None,
        }
    }

    /// Gives up all streams.
    pub fn drain(&mut self) -> (all: Vec<Held>)
        requires
            old(self).wf(),
        ensures
            final(self).wf(),
            final(self)@ == Map::<(u64, Dir), HeldModel>::empty(),
            distinct(all@),
            as_map(all@) == old(self)@,
            forall|i: int|
                0 <= i < all@.len() ==> {
                    &&& old(self)@.contains_key((#[trigger] all@[i].conn, all@[i].dir))
                    &&& old(self)@[(all@[i].conn, all@[i].dir)] == all@[i]@
                },
    {
        let mut all: Vec<Held> = Vec::new();
        std::mem::swap(&mut all, &mut self.held);
        assert(self@ =~= Map::<(u64, Dir), HeldModel>::empty()) by {
            assert forall|k: (u64, Dir)| !lists(self.held@, k) by {
                if lists(self.held@, k) {
                    assert(is_at(self.held@, k, place(self.held@, k)));
                }
            }
        }
        assert forall|i: int| 0 <= i < all@.len() implies {
            &&& as_map(all@).contains_key((#[trigger] all@[i].conn, all@[i].dir))
            &&& as_map(all@)[(all@[i].conn, all@[i].dir)] == all@[i]@
        } by {
            assert(is_at(all@, (all@[i].conn, all@[i].dir), i));
            found_at(all@, (all@[i].conn, all@[i].dir), i);
        }
        all
    }
}

} // verus!
