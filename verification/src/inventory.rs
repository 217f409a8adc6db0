//! Snapshot inventories: which snapshots one side holds, keyed by the
//! instant they were taken.

use vstd::prelude::*;

verus! {

/// A point in time: whole seconds since the Unix epoch, and the nanoseconds
/// into that second. Ordered by seconds first, then by nanoseconds.
#[derive(Clone, Copy, Debug, PartialEq, Eq, Structural, PartialOrd, Ord, Hash)]
pub struct TimeStamp {
    pub secs: i64,
    pub nanos: u32,
}

impl TimeStamp {
    /// `self` is strictly earlier than `other`.
    pub open spec fn before(self, other: TimeStamp) -> bool {
        self.secs < other.secs || (self.secs == other.secs && self.nanos < other.nanos)
    }

    pub fn new(secs: i64, nanos: u32) -> (t: TimeStamp)
        ensures
            t == (TimeStamp { secs, nanos }),
    {
        TimeStamp { secs, nanos }
    }

    /// The instant `secs` whole seconds after the epoch.
    pub fn from_secs(secs: i64) -> (t: TimeStamp)
        ensures
            t == (TimeStamp { secs, nanos: 0 }),
    {
        TimeStamp { secs, nanos: 0 }
    }

    /// Reads the instant off a snapshot's name, which is a date and time in
    /// the RFC 3339 format.
    pub fn parse(name: &str) -> (r: Option<TimeStamp>)
        ensures
            r == stamp_of(name@),
    {
        stamp_from(parse_rfc3339(name))
    }

    pub fn is_before(&self, other: &TimeStamp) -> (b: bool)
        ensures
            b == self.before(*other),
    {
        self.secs < other.secs || (self.secs == other.secs && self.nanos < other.nanos)
    }
}

/// The instant that a text in the RFC 3339 date-and-time format denotes, as
/// seconds since the Unix epoch and nanoseconds into the second; `None`
/// where the text is not in that format.
pub uninterp spec fn rfc3339_instant(text: Seq<char>) -> Option<(i64, u32)>;

/// The instant that a snapshot's name denotes.
pub open spec fn stamp_of(name: Seq<char>) -> Option<TimeStamp> {
    match rfc3339_instant(name) {
        Some((secs, nanos)) => Some(TimeStamp { secs, nanos }),
        None => None,
    }
}

/// Calls `chrono::DateTime::parse_from_rfc3339` and, where it accepts the
/// text, reads the instant off with `DateTime::timestamp` and
/// `DateTime::timestamp_subsec_nanos`. Not proved: that the outcome is the
/// instant that the text denotes, which depends on the text alone.
#[verifier::external_body]
fn parse_rfc3339(text: &str) -> (r: Option<(i64, u32)>)
    ensures
        r == rfc3339_instant(text@),
{
    match chrono::DateTime::parse_from_rfc3339(text) {
        Ok(t) => Some((t.timestamp(), t.timestamp_subsec_nanos())),
        Err(_) => None,
    }
}

/// The instant of a parsed name: seconds first, then nanoseconds.
pub fn stamp_from(parsed: Option<(i64, u32)>) -> (r: Option<TimeStamp>)
    ensures
        r == (match parsed {
            Some((secs, nanos)) => Some(TimeStamp { secs, nanos }),
            None => None,
        }),
{
    match parsed {
        Some((secs, nanos)) => Some(TimeStamp { secs, nanos }),
        None => None,
    }
}

/// Every element is strictly earlier than all that follow it.
pub open spec fn ascending(s: Seq<TimeStamp>) -> bool {
    forall|i: int, j: int| 0 <= i < j < s.len() ==> (#[trigger] s[i]).before(#[trigger] s[j])
}

/// In an ascending sequence an instant stands at one index only.
pub proof fn lemma_ascending_index(s: Seq<TimeStamp>, i: int)
    requires
        ascending(s),
        0 <= i < s.len(),
    ensures
        s.contains(s[i]),
        s.index_of(s[i]) == i,
{
    let j = s.index_of(s[i]);
    assert(s.contains(s[i]));
    if j < i {
        assert(s[j].before(s[i]));
    } else if i < j {
        assert(s[i].before(s[j]));
    }
}

/// The snapshots known on one side: instants in ascending order, each with
/// the name of its snapshot.
pub struct FileList {
    keys: Vec<TimeStamp>,
    names: Vec<String>,
}

impl View for FileList {
    type V = Map<TimeStamp, Seq<char>>;

    /// The inventory as a map from each instant held to the name of its
    /// snapshot.
    open spec fn view(&self) -> Map<TimeStamp, Seq<char>> {
        Map::new(|t: TimeStamp| self.has(t), |t: TimeStamp| self.name_of(t))
    }
}

impl FileList {
    /// The instants held, earliest first.
    pub closed spec fn keys(&self) -> Seq<TimeStamp> {
        self.keys@
    }

    /// The names held; `names()[i]` belongs to `keys()[i]`.
    pub closed spec fn names(&self) -> Seq<Seq<char>> {
        Seq::new(self.names@.len(), |i: int| self.names@[i]@)
    }

    /// No instant occurs twice, the instants ascend, and each has a name.
    pub open spec fn wf(&self) -> bool {
        &&& ascending(self.keys())
        &&& self.names().len() == self.keys().len()
    }

    /// A snapshot taken at `t` is held.
    pub open spec fn has(&self, t: TimeStamp) -> bool {
        self.keys().contains(t)
    }

    /// The name of the snapshot taken at `t`, where one is held.
    pub open spec fn name_of(&self, t: TimeStamp) -> Seq<char> {
        self.names()[self.keys().index_of(t)]
    }

    pub fn new() -> (l: FileList)
        ensures
            l.wf(),
            l.keys() == Seq::<TimeStamp>::empty(),
            l.names() == Seq::<Seq<char>>::empty(),
            l@ == Map::<TimeStamp, Seq<char>>::empty(),
    {
        let l = FileList { keys: Vec::new(), names: Vec::new() };
        assert(l.names() =~= Seq::<Seq<char>>::empty());
        assert(l@ =~= Map::<TimeStamp, Seq<char>>::empty());
        l
    }

    pub fn len(&self) -> (n: usize)
        ensures
            n == self.keys().len(),
    {
        self.keys.len()
    }

    pub fn is_empty(&self) -> (b: bool)
        ensures
            b == (self.keys().len() == 0),
    {
        self.keys.len() == 0
    }

    /// The `i`-th instant in ascending order.
    pub fn key_at(&self, i: usize) -> (t: TimeStamp)
        requires
            i < self.keys().len(),
        ensures
            t == self.keys()[i as int],
    {
        self.keys[i]
    }

    /// The name that belongs to the `i`-th instant.
    pub fn name_at(&self, i: usize) -> (s: &String)
        requires
            self.wf(),
            i < self.keys().len(),
        ensures
            s@ == self.names()[i as int],
    {
        &self.names[i]
    }

    /// The index at which `t` stands, if it is held.
    pub fn position(&self, t: TimeStamp) -> (r: Option<usize>)
        requires
            self.wf(),
        ensures
            r.is_some() == self.has(t),
            r matches Some(i) ==> i < self.keys().len() && self.keys()[i as int] == t
                && self.keys().index_of(t) == i,
    {
        let mut i: usize = 0;
        while i < self.keys.len()
            invariant
                self.wf(),
                i <= self.keys.len(),
                forall|j: int| 0 <= j < i ==> self.keys@[j] != t,
            decreases self.keys.len() - i,
        {
            if self.keys[i] == t {
                proof {
                    lemma_ascending_index(self.keys(), i as int);
                }
                return Some(i);
            }
            i += 1;
        }
        None
    }

    pub fn contains_key(&self, t: TimeStamp) -> (b: bool)
        requires
            self.wf(),
        ensures
            b == self.has(t),
    {
        self.position(t).is_some()
    }

    /// The name of the snapshot taken at `t`.
    pub fn get(&self, t: TimeStamp) -> (r: Option<&String>)
        requires
            self.wf(),
        ensures
            r.is_some() == self@.contains_key(t),
            r matches Some(s) ==> s@ == self@[t],
            r.is_some() == self.has(t),
            r matches Some(s) ==> s@ == self.name_of(t),
    {
        match self.position(t) {
            Some(i) => Some(&self.names[i]),
            None => None,
        }
    }

    /// Records the snapshot `name` taken at `t`. A snapshot already recorded
    /// for `t` gives way to it; every other entry stays as it was.
    pub fn insert(&mut self, t: TimeStamp, name: String)
        requires
            old(self).wf(),
        ensures
            final(self).wf(),
            final(self)@ == old(self)@.insert(t, name@),
            forall|u: TimeStamp| final(self).has(u) <==> (old(self).has(u) || u == t),
            final(self).name_of(t) == name@,
            forall|u: TimeStamp| old(self).has(u) && u != t ==> final(self).name_of(u) == old(
                self,
            ).name_of(u),
            final(self).keys().len() == old(self).keys().len() + (if old(self).has(t) {
                0int
            } else {
                1int
            }),
    {
        let ghost old_keys = self.keys();
        let ghost old_names = self.names();
        let mut i: usize = 0;
        while i < self.keys.len() && self.keys[i].is_before(&t)
            invariant
                i <= self.keys.len(),
                self.keys() == old_keys,
                self.names() == old_names,
                forall|j: int| 0 <= j < i ==> self.keys@[j].before(t),
            decreases self.keys.len() - i,
        {
            i += 1;
        }
        if i < self.keys.len() && self.keys[i] == t {
            self.names.remove(i);
            self.names.insert(i, name);
            proof {
                assert(self.names() =~= old_names.update(i as int, name@));
                lemma_ascending_index(old_keys, i as int);
                assert forall|u: TimeStamp| old_keys.contains(u) && u != t implies self.name_of(u)
                    == old_names[old_keys.index_of(u)] by {
                    let k = old_keys.index_of(u);
                    assert(k != i);
                }
            }
        } else {
            self.keys.insert(i, t);
            self.names.insert(i, name);
            proof {
                let new_keys = self.keys();
                assert(new_keys == old_keys.insert(i as int, t));
                assert(self.names() =~= old_names.insert(i as int, name@));
                assert(ascending(new_keys)) by {
                    assert forall|a: int, b: int| 0 <= a < b < new_keys.len() implies (
                    #[trigger] new_keys[a]).before(#[trigger] new_keys[b]) by {
                        let oa = if a < i { a } else { a - 1 };
                        let ob = if b < i { b } else { b - 1 };
                        if a != i && b != i {
                            assert(old_keys[oa].before(old_keys[ob]));
                        } else if a == i {
                            assert(!old_keys[i as int].before(t));
                            assert(old_keys[ob] == new_keys[b]);
                            if ob > i {
                                assert(old_keys[i as int].before(old_keys[ob]));
                            }
                        } else {
                            assert(old_keys[oa].before(t));
                        }
                    }
                }
                assert(!old_keys.contains(t)) by {
                    if old_keys.contains(t) {
                        let k = old_keys.index_of(t);
                        if k < i {
                            assert(old_keys[k].before(t));
                        } else if k > i {
                            assert(old_keys[i as int].before(old_keys[k]));
                        }
                    }
                }
                assert forall|u: TimeStamp| new_keys.contains(u) <==> (old_keys.contains(u) || u
                    == t) by {
                    if new_keys.contains(u) {
                        let k = new_keys.index_of(u);
                        if k < i {
                            assert(old_keys[k] == u);
                        } else if k > i {
                            assert(old_keys[k - 1] == u);
                        }
                    }
                    if old_keys.contains(u) {
                        let k = old_keys.index_of(u);
                        if k < i {
                            assert(new_keys[k] == u);
                        } else {
                            assert(new_keys[k + 1] == u);
                        }
                    }
                    if u == t {
                        assert(new_keys[i as int] == u);
                    }
                }
                lemma_ascending_index(new_keys, i as int);
                assert forall|u: TimeStamp| old_keys.contains(u) && u != t implies self.name_of(u)
                    == old_names[old_keys.index_of(u)] by {
                    let k = old_keys.index_of(u);
                    let nk = if k < i { k } else { k + 1 };
                    assert(new_keys[nk] == u);
                    lemma_ascending_index(new_keys, nk);
                }
            }
        }
        assert(self@ =~= old(self)@.insert(t, name@));
    }
}

/// A name as it was listed, with the instant it denotes, if it denotes one.
pub struct Listed {
    pub stamp: Option<TimeStamp>,
    pub name: String,
}

/// The `i`-th entry is the last one that records the instant `t`.
pub open spec fn records_last(entries: Seq<Listed>, n: int, i: int, t: TimeStamp) -> bool {
    &&& 0 <= i < n
    &&& entries[i].stamp == Some(t)
    &&& forall|j: int| i < j < n ==> (#[trigger] entries[j]).stamp != Some(t)
}

/// Some entry among the first `n` records the instant `t`.
pub open spec fn records(entries: Seq<Listed>, n: int, t: TimeStamp) -> bool {
    exists|i: int| 0 <= i < n && (#[trigger] entries[i]).stamp == Some(t)
}

/// The `i`-th entry is the first one that denotes no instant.
pub open spec fn first_unreadable(entries: Seq<Listed>, i: int) -> bool {
    &&& 0 <= i < entries.len()
    &&& entries[i].stamp is None
    &&& forall|j: int| 0 <= j < i ==> (#[trigger] entries[j]).stamp is Some
}

/// Builds an inventory from listed names. A name that denotes no instant
/// is passed over, or, with `strict`, refused: the result is then the index
/// of the first such name. Of two names for one instant the later counts.
pub fn collect(entries: &Vec<Listed>, strict: bool) -> (r: Result<FileList, usize>)
    ensures
        match r {
            Ok(list) => {
                &&& list.wf()
                &&& strict ==> forall|j: int|
                    0 <= j < entries.len() ==> (#[trigger] entries[j]).stamp is Some
                &&& forall|t: TimeStamp|
                    list.has(t) <==> records(entries@, entries.len() as int, t)
                &&& forall|i: int, t: TimeStamp|
                    records_last(entries@, entries.len() as int, i, t) ==> list.name_of(t)
                        == entries[i].name@
            },
            Err(i) => strict && first_unreadable(entries@, i as int),
        },
{
    let mut list = FileList::new();
    let mut k: usize = 0;
    while k < entries.len()
        invariant
            k <= entries.len(),
            list.wf(),
            strict ==> forall|j: int| 0 <= j < k ==> (#[trigger] entries[j]).stamp is Some,
            forall|t: TimeStamp| list.has(t) <==> records(entries@, k as int, t),
            forall|i: int, t: TimeStamp|
                records_last(entries@, k as int, i, t) ==> list.name_of(t) == entries[i].name@,
        decreases entries.len() - k,
    {
        let ghost before = list;
        match entries[k].stamp {
            Some(t) => {
                list.insert(t, entries[k].name.clone());
                proof {
                    assert forall|u: TimeStamp| list.has(u) <==> records(
                        entries@,
                        k + 1,
                        u,
                    ) by {
                        if records(entries@, k + 1, u) {
                            let i = choose|i: int|
                                0 <= i < k + 1 && (#[trigger] entries[i]).stamp == Some(u);
                            if i < k {
                                assert(records(entries@, k as int, u));
                            }
                        }
                        if before.has(u) {
                            let i = choose|i: int|
                                0 <= i < k && (#[trigger] entries[i]).stamp == Some(u);
                            assert(entries[i].stamp == Some(u));
                        }
                        if u == t {
                            assert(entries[k as int].stamp == Some(u));
                        }
                    }
                    assert forall|i: int, u: TimeStamp|
                        records_last(entries@, k + 1, i, u) implies list.name_of(u)
                        == entries[i].name@ by {
                        if i < k {
                            assert(entries[k as int].stamp != Some(u));
                            assert(records_last(entries@, k as int, i, u));
                            assert(records(entries@, k as int, u));
                        }
                    }
                }
            },
            None => {
                if strict {
                    return Err(k);
                }
                proof {
                    assert forall|u: TimeStamp| list.has(u) <==> records(
                        entries@,
                        k + 1,
                        u,
                    ) by {
                        if records(entries@, k + 1, u) {
                            let i = choose|i: int|
                                0 <= i < k + 1 && (#[trigger] entries[i]).stamp == Some(u);
                            assert(i < k);
                            assert(records(entries@, k as int, u));
                        }
                        if list.has(u) {
                            let i = choose|i: int|
                                0 <= i < k && (#[trigger] entries[i]).stamp == Some(u);
                            assert(entries[i].stamp == Some(u));
                        }
                    }
                    assert forall|i: int, u: TimeStamp|
                        records_last(entries@, k + 1, i, u) implies list.name_of(u)
                        == entries[i].name@ by {
                        assert(records_last(entries@, k as int, i, u));
                    }
                }
            },
        }
        k += 1;
    }
    Ok(list)
}

/// The `i`-th name is the last one that denotes the instant `t`.
pub open spec fn names_last(names: Seq<String>, i: int, t: TimeStamp) -> bool {
    &&& 0 <= i < names.len()
    &&& stamp_of(names[i]@) == Some(t)
    &&& forall|j: int| i < j < names.len() ==> stamp_of(#[trigger] names[j]@) != Some(t)
}

/// Reads the instant off each name and builds the inventory, as `collect`
/// does with the names so read.
pub fn from_names(names: &Vec<String>, strict: bool) -> (r: Result<FileList, usize>)
    ensures
        match r {
            Ok(list) => {
                &&& list.wf()
                &&& strict ==> forall|j: int|
                    0 <= j < names.len() ==> stamp_of(#[trigger] names[j]@) is Some
                &&& forall|t: TimeStamp|
                    list.has(t) <==> exists|i: int|
                        0 <= i < names.len() && stamp_of(#[trigger] names[i]@) == Some(t)
                &&& forall|i: int, t: TimeStamp| #[trigger]
                    names_last(names@, i, t) ==> list.name_of(t) == names[i]@
            },
            Err(i) => {
                &&& strict
                &&& i < names.len()
                &&& stamp_of(names[i as int]@) is None
                &&& forall|j: int| 0 <= j < i ==> stamp_of(#[trigger] names[j]@) is Some
            },
        },
{
    let mut entries: Vec<Listed> = Vec::new();
    let mut k: usize = 0;
    while k < names.len()
        invariant
            k <= names.len(),
            entries.len() == k,
            forall|j: int|
                0 <= j < k ==> (#[trigger] entries[j]).stamp == stamp_of(names[j]@) && entries[j].name@
                    == names[j]@,
        decreases names.len() - k,
    {
        let stamp = TimeStamp::parse(names[k].as_str());
        entries.push(Listed { stamp, name: names[k].clone() });
        k += 1;
    }
    let r = collect(&entries, strict);
    proof {
        match &r {
            Ok(list) => {
                assert forall|t: TimeStamp| list.has(t) <==> exists|i: int|
                    0 <= i < names.len() && stamp_of(#[trigger] names[i]@) == Some(t) by {
                    if list.has(t) {
                        let i = choose|i: int|
                            0 <= i < entries.len() && (#[trigger] entries[i]).stamp == Some(t);
                        assert(stamp_of(names[i]@) == Some(t));
                    }
                    if exists|i: int|
                        0 <= i < names.len() && stamp_of(#[trigger] names[i]@) == Some(t) {
                        let i = choose|i: int|
                            0 <= i < names.len() && stamp_of(#[trigger] names[i]@) == Some(t);
                        assert(entries[i].stamp == Some(t));
                    }
                }
                assert forall|i: int, t: TimeStamp| #[trigger]
                    names_last(names@, i, t) implies list.name_of(t) == names[i]@ by {
                    assert(entries[i].stamp == Some(t));
                    assert forall|j: int| i < j < entries.len() implies (#[trigger] entries[j]).stamp
                        != Some(t) by {
                        assert(stamp_of(names[j]@) != Some(t));
                    }
                    assert(records_last(entries@, entries.len() as int, i, t));
                }
                if strict {
                    assert forall|j: int| 0 <= j < names.len() implies stamp_of(
                        #[trigger] names[j]@,
                    ) is Some by {
                        assert(entries[j].stamp is Some);
                    }
                }
            },
            Err(i) => {
                assert forall|j: int| 0 <= j < *i implies stamp_of(#[trigger] names[j]@) is Some by {
                    assert(entries[j].stamp is Some);
                }
            },
        }
    }
    r
}

} // verus!
