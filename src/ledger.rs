use vstd::prelude::*;
use crate::error::DemonError;
use crate::names::{find_by_key, first_of_key, keys_of, lower_of, lowercase, same_name};
use crate::tier::{list_state, tier_of, ListState};

verus! {

/// The largest number of entries a list can hold: the last position must
/// fit in an `i16`.
pub const MAX_ENTRIES: usize = 32767;

/// An entry of the list.
#[derive(Debug)]
pub struct Demon {
    pub name: String,
    pub position: i16,
    pub requirement: i16,
    pub video: Option<String>,
    pub verifier: i32,
    pub publisher: i32,
}

/// The read projection of an entry: its name and position, with the tier
/// recomputed from the position whenever it is asked for.
#[derive(Debug)]
pub struct PartialDemon {
    pub name: String,
    pub position: i16,
}

/// `d` with its position replaced by `p`.
pub open spec fn at_position(d: Demon, p: int) -> Demon {
    Demon { position: p as i16, ..d }
}

/// Every entry at a position `>= from` moved one place back.
pub open spec fn shifted_down(rows: Seq<Demon>, from: int) -> Seq<Demon> {
    rows.map_values(
        |d: Demon|
            if d.position >= from {
                at_position(d, d.position + 1)
            } else {
                d
            },
    )
}

/// Every entry at a position `> from` moved one place forward.
pub open spec fn shifted_up(rows: Seq<Demon>, from: int) -> Seq<Demon> {
    rows.map_values(
        |d: Demon|
            if d.position > from {
                at_position(d, d.position - 1)
            } else {
                d
            },
    )
}

fn copy_video(v: &Option<String>) -> (r: Option<String>)
    ensures
        r == *v,
{
    match v {
        Some(s) => Some(s.clone()),
        None => None,
    }
}

impl Demon {
    /// A copy of this entry.
    pub fn copy(&self) -> (r: Demon)
        ensures
            r == *self,
    {
        Demon {
            name: self.name.clone(),
            position: self.position,
            requirement: self.requirement,
            video: copy_video(&self.video),
            verifier: self.verifier,
            publisher: self.publisher,
        }
    }

    /// The read projection of this entry.
    pub fn into_partial(self) -> (r: PartialDemon)
        ensures
            r.name == self.name,
            r.position == self.position,
    {
        PartialDemon { name: self.name, position: self.position }
    }
}

impl PartialDemon {
    /// The tier of this entry, derived from its position.
    pub fn state(&self) -> (r: ListState)
        ensures
            r == tier_of(self.position as int),
    {
        list_state(self.position)
    }
}

/// Increments the position of every entry at a position `>= from`, which
/// leaves `from` vacant.
pub fn shift_down(rows: &mut Vec<Demon>, from: i16)
    requires
        forall|i: int| 0 <= i < old(rows)@.len() ==> (#[trigger] old(rows)@[i]).position < i16::MAX,
    ensures
        final(rows)@ == shifted_down(old(rows)@, from as int),
{
    let mut out: Vec<Demon> = Vec::new();
    let mut i: usize = 0;
    while i < rows.len()
        invariant
            0 <= i <= rows@.len(),
            *rows == *old(rows),
            out@ == shifted_down(rows@.subrange(0, i as int), from as int),
            forall|k: int| 0 <= k < rows@.len() ==> (#[trigger] rows@[k]).position < i16::MAX,
        decreases rows@.len() - i,
    {
        let mut d = rows[i].copy();
        if d.position >= from {
            d.position = d.position + 1;
        }
        out.push(d);
        i += 1;
        assert(rows@.subrange(0, i as int) == rows@.subrange(0, i - 1).push(rows@[i - 1]));
    }
    assert(rows@.subrange(0, i as int) == rows@);
    *rows = out;
}

/// Decrements the position of every entry at a position `> from`, which
/// closes a gap left at `from`.
pub fn shift_up(rows: &mut Vec<Demon>, from: i16)
    ensures
        final(rows)@ == shifted_up(old(rows)@, from as int),
{
    let mut out: Vec<Demon> = Vec::new();
    let mut i: usize = 0;
    while i < rows.len()
        invariant
            0 <= i <= rows@.len(),
            *rows == *old(rows),
            out@ == shifted_up(rows@.subrange(0, i as int), from as int),
        decreases rows@.len() - i,
    {
        let mut d = rows[i].copy();
        if d.position > from {
            d.position = d.position - 1;
        }
        out.push(d);
        i += 1;
        assert(rows@.subrange(0, i as int) == rows@.subrange(0, i - 1).push(rows@[i - 1]));
    }
    assert(rows@.subrange(0, i as int) == rows@);
    *rows = out;
}

} // verus!

verus! {

/// Whether the entries sit at the positions `1..=N` in order.
pub open spec fn dense(rows: Seq<Demon>) -> bool {
    &&& rows.len() <= MAX_ENTRIES
    &&& forall|i: int| 0 <= i < rows.len() ==> (#[trigger] rows[i]).position == i + 1
}

/// Whether no two entries share a name, ignoring case.
pub open spec fn unique_names(rows: Seq<Demon>) -> bool {
    forall|i: int, j: int|
        0 <= i < rows.len() && 0 <= j < rows.len() && i != j ==> !same_name(
            #[trigger] rows[i].name@,
            #[trigger] rows[j].name@,
        )
}

/// Whether some entry is called `name`, ignoring case.
pub open spec fn name_taken(rows: Seq<Demon>, name: Seq<char>) -> bool {
    exists|i: int| 0 <= i < rows.len() && same_name(#[trigger] rows[i].name@, name)
}

/// Whether some entry is called exactly `name`.
pub open spec fn has_entry_named(rows: Seq<Demon>, name: Seq<char>) -> bool {
    exists|i: int| 0 <= i < rows.len() && (#[trigger] rows[i]).name@ == name
}

/// Whether every link names an entry.
pub open spec fn links_named(rows: Seq<Demon>, links: Seq<CreatorLink>) -> bool {
    forall|k: int| 0 <= k < links.len() ==> has_entry_named(rows, (#[trigger] links[k]).demon@)
}

/// Links that name entries of `before` still name entries of `after` when
/// every name of `before` is still there.
proof fn lemma_links_follow(before: Seq<Demon>, after: Seq<Demon>, links: Seq<CreatorLink>)
    requires
        links_named(before, links),
        forall|i: int| 0 <= i < before.len() ==> has_entry_named(after, (#[trigger] before[i]).name@),
    ensures
        links_named(after, links),
{
    assert forall|k: int| 0 <= k < links.len() implies has_entry_named(after, (#[trigger] links[k]).demon@) by {
        let i = choose|i: int| 0 <= i < before.len() && (#[trigger] before[i]).name@ == links[k].demon@;
        assert(has_entry_named(after, before[i].name@));
    }
}

/// The set of positions that the entries occupy.
pub open spec fn positions(rows: Seq<Demon>) -> Set<int> {
    Set::new(|p: int| exists|i: int| 0 <= i < rows.len() && (#[trigger] rows[i]).position == p)
}

/// An association of an entry, by name, with one of its creators.
#[derive(Debug)]
pub struct CreatorLink {
    pub demon: String,
    pub creator: i32,
}

/// The list: its entries in the order of their positions, and the creators
/// associated with them.
#[derive(Debug)]
pub struct Ledger {
    pub rows: Vec<Demon>,
    pub links: Vec<CreatorLink>,
}

/// In a dense list the positions are exactly `1..=N`: no gaps and no
/// duplicates.
pub proof fn lemma_positions_dense(rows: Seq<Demon>)
    requires
        dense(rows),
    ensures
        positions(rows) == Set::new(|p: int| 1 <= p <= rows.len()),
        forall|i: int, j: int|
            0 <= i < rows.len() && 0 <= j < rows.len() && i != j ==> (#[trigger] rows[i]).position
                != (#[trigger] rows[j]).position,
{
    assert forall|p: int| 1 <= p <= rows.len() implies positions(rows).contains(p) by {
        assert(rows[p - 1].position == p);
    }
    assert(positions(rows) =~= Set::new(|p: int| 1 <= p <= rows.len()));
}

fn copy_rows(rows: &Vec<Demon>) -> (r: Vec<Demon>)
    ensures
        r@ == rows@,
{
    let mut out: Vec<Demon> = Vec::new();
    let mut i: usize = 0;
    while i < rows.len()
        invariant
            0 <= i <= rows@.len(),
            out@ == rows@.subrange(0, i as int),
        decreases rows@.len() - i,
    {
        out.push(rows[i].copy());
        i += 1;
    }
    assert(rows@.subrange(0, i as int) == rows@);
    out
}

fn copy_links(links: &Vec<CreatorLink>) -> (r: Vec<CreatorLink>)
    ensures
        r@ == links@,
{
    let mut out: Vec<CreatorLink> = Vec::new();
    let mut i: usize = 0;
    while i < links.len()
        invariant
            0 <= i <= links@.len(),
            out@ == links@.subrange(0, i as int),
        decreases links@.len() - i,
    {
        out.push(CreatorLink { demon: links[i].demon.clone(), creator: links[i].creator });
        i += 1;
    }
    assert(links@.subrange(0, i as int) == links@);
    out
}

impl Ledger {
    /// Whether the entries are dense and uniquely named.
    pub open spec fn rows_ok(&self) -> bool {
        dense(self.rows@) && unique_names(self.rows@)
    }

    /// Whether the entries are dense and uniquely named, and every creator
    /// link names an entry.
    pub open spec fn wf(&self) -> bool {
        self.rows_ok() && links_named(self.rows@, self.links@)
    }

    /// An empty list.
    pub fn new() -> (r: Ledger)
        ensures
            r.wf(),
            r.rows@.len() == 0,
            r.links@.len() == 0,
    {
        Ledger { rows: Vec::new(), links: Vec::new() }
    }

    /// The number of entries.
    pub fn len(&self) -> (r: usize)
        ensures
            r == self.rows@.len(),
    {
        self.rows.len()
    }

    /// A copy of the whole list, opened as a transaction: changes to the copy
    /// leave this list as it is until the copy replaces it.
    pub fn begin(&self) -> (r: Ledger)
        ensures
            r.rows@ == self.rows@,
            r.links@ == self.links@,
    {
        Ledger { rows: copy_rows(&self.rows), links: copy_links(&self.links) }
    }

    /// Opens the slot at `demon.position` and puts `demon` there, leaving the
    /// links as they are.
    fn put(&mut self, demon: Demon)
        requires
            old(self).rows_ok(),
            old(self).rows@.len() < MAX_ENTRIES,
            1 <= demon.position <= old(self).rows@.len() + 1,
            !name_taken(old(self).rows@, demon.name@),
        ensures
            final(self).rows_ok(),
            final(self).rows@ == shifted_down(old(self).rows@, demon.position as int).insert(
                demon.position - 1,
                demon,
            ),
            final(self).links@ == old(self).links@,
            forall|i: int| 0 <= i < old(self).rows@.len() ==> has_entry_named(final(self).rows@, (#[trigger] old(self).rows@[i]).name@),
            has_entry_named(final(self).rows@, demon.name@),
    {
        let ghost pre = self.rows@;
        let p = demon.position;
        shift_down(&mut self.rows, p);
        let ghost mid = self.rows@;
        self.rows.insert((p - 1) as usize, demon);
        let ghost post = self.rows@;
        assert forall|i: int| 0 <= i < post.len() implies (#[trigger] post[i]).position == i + 1 by {
            if i < p - 1 {
                assert(post[i] == mid[i]);
            } else if i > p - 1 {
                assert(post[i] == mid[i - 1]);
            }
        }
        assert forall|i: int, j: int|
            0 <= i < post.len() && 0 <= j < post.len() && i != j implies !same_name(
            #[trigger] post[i].name@,
            #[trigger] post[j].name@,
        ) by {
            let oi = if i < p - 1 { i } else { i - 1 };
            let oj = if j < p - 1 { j } else { j - 1 };
            if i != p - 1 {
                assert(post[i].name == pre[oi].name);
            }
            if j != p - 1 {
                assert(post[j].name == pre[oj].name);
            }
        }
        assert forall|i: int| 0 <= i < pre.len() implies has_entry_named(post, (#[trigger] pre[i]).name@) by {
            let ni = if i < p - 1 { i } else { i + 1 };
            assert(post[ni].name == pre[i].name);
        }
        assert(post[p - 1].name@ == post[p - 1].name@);
    }

    /// Takes out the entry at `position` and closes the gap, leaving the
    /// links as they are.
    fn take_out(&mut self, position: i16) -> (r: Demon)
        requires
            old(self).rows_ok(),
            1 <= position <= old(self).rows@.len(),
        ensures
            final(self).rows_ok(),
            forall|i: int| 0 <= i < old(self).rows@.len() && i != position - 1 ==> has_entry_named(final(self).rows@, (#[trigger] old(self).rows@[i]).name@),
            r == old(self).rows@[position - 1],
            final(self).rows@ == shifted_up(old(self).rows@.remove(position - 1), position as int),
            final(self).links@ == old(self).links@,
    {
        let ghost pre = self.rows@;
        let r = self.rows.remove((position - 1) as usize);
        let ghost mid = self.rows@;
        shift_up(&mut self.rows, position);
        let ghost post = self.rows@;
        assert forall|i: int| 0 <= i < post.len() implies (#[trigger] post[i]).position == i + 1 by {
            if i < position - 1 {
                assert(mid[i] == pre[i]);
            } else {
                assert(mid[i] == pre[i + 1]);
            }
        }
        assert forall|i: int, j: int|
            0 <= i < post.len() && 0 <= j < post.len() && i != j implies !same_name(
            #[trigger] post[i].name@,
            #[trigger] post[j].name@,
        ) by {
            let oi = if i < position - 1 { i } else { i + 1 };
            let oj = if j < position - 1 { j } else { j + 1 };
            assert(post[i].name == pre[oi].name);
            assert(post[j].name == pre[oj].name);
        }
        assert forall|i: int| 0 <= i < pre.len() && i != position - 1 implies has_entry_named(post, (#[trigger] pre[i]).name@) by {
            let ni = if i < position - 1 { i } else { i - 1 };
            assert(post[ni].name == pre[i].name);
        }
        r
    }

    /// Opens the slot at `demon.position` by shifting every entry at or after
    /// it one place back, and puts `demon` there.
    pub fn insert(&mut self, demon: Demon)
        requires
            old(self).wf(),
            old(self).rows@.len() < MAX_ENTRIES,
            1 <= demon.position <= old(self).rows@.len() + 1,
            !name_taken(old(self).rows@, demon.name@),
        ensures
            final(self).wf(),
            final(self).rows@ == shifted_down(old(self).rows@, demon.position as int).insert(
                demon.position - 1,
                demon,
            ),
            final(self).links@ == old(self).links@,
            final(self).rows@.len() == old(self).rows@.len() + 1,
            final(self).rows@[demon.position - 1] == demon,
            forall|i: int|
                0 <= i < old(self).rows@.len() && (#[trigger] old(self).rows@[i]).position
                    >= demon.position ==> final(self).rows@[i + 1] == at_position(
                    old(self).rows@[i],
                    old(self).rows@[i].position + 1,
                ),
            forall|i: int|
                0 <= i < old(self).rows@.len() && (#[trigger] old(self).rows@[i]).position
                    < demon.position ==> final(self).rows@[i] == old(self).rows@[i],
    {
        let ghost pre = self.rows@;
        self.put(demon);
        proof {
            lemma_links_follow(pre, self.rows@, self.links@);
        }
    }
}


impl Ledger {
    /// Moves the entry at `from` to `to`: the gap it leaves is closed, then a
    /// slot is opened at `to`.
    pub fn move_to(&mut self, from: i16, to: i16)
        requires
            old(self).wf(),
            1 <= from <= old(self).rows@.len(),
            1 <= to <= old(self).rows@.len(),
        ensures
            final(self).wf(),
            final(self).rows@ == shifted_down(
                shifted_up(old(self).rows@.remove(from - 1), from as int),
                to as int,
            ).insert(to - 1, at_position(old(self).rows@[from - 1], to as int)),
            final(self).links@ == old(self).links@,
    {
        let ghost pre = self.rows@;
        let mut d = self.take_out(from);
        let ghost mid = self.rows@;
        assert(!name_taken(mid, d.name@)) by {
            if name_taken(mid, d.name@) {
                let k = choose|k: int| 0 <= k < mid.len() && same_name(#[trigger] mid[k].name@, d.name@);
                let ok = if k < from - 1 { k } else { k + 1 };
                assert(mid[k].name == pre[ok].name);
            }
        }
        d.position = to;
        let ghost name = d.name@;
        self.put(d);
        proof {
            assert forall|i: int| 0 <= i < pre.len() implies has_entry_named(self.rows@, (#[trigger] pre[i]).name@) by {
                if i == from - 1 {
                    assert(pre[i].name@ == name);
                } else {
                    let w = choose|w: int| 0 <= w < mid.len() && (#[trigger] mid[w]).name@ == pre[i].name@;
                    assert(has_entry_named(self.rows@, mid[w].name@));
                }
            }
            lemma_links_follow(pre, self.rows@, self.links@);
        }
    }

    /// Checks that `position` is free to insert at: within `1..=N+1`.
    pub fn validate_position(&self, position: i16) -> (r: Result<(), DemonError>)
        requires
            self.rows@.len() <= MAX_ENTRIES,
        ensures
            r is Ok <==> 1 <= position <= self.rows@.len() + 1,
            r matches Err(e) ==> e == (DemonError::PositionOutOfBounds {
                maximal: (self.rows@.len() + 1) as i32,
            }),
    {
        let maximal = (self.rows.len() + 1) as i32;
        if position < 1 || position as i32 > maximal {
            Err(DemonError::PositionOutOfBounds { maximal })
        } else {
            Ok(())
        }
    }

    /// Checks that `position` is one an existing entry can move to: within
    /// `1..=N`.
    pub fn validate_move_position(&self, position: i16) -> (r: Result<(), DemonError>)
        requires
            self.rows@.len() <= MAX_ENTRIES,
        ensures
            r is Ok <==> 1 <= position <= self.rows@.len(),
            r matches Err(e) ==> e == (DemonError::PositionOutOfBounds {
                maximal: self.rows@.len() as i32,
            }),
    {
        let maximal = self.rows.len() as i32;
        if position < 1 || position as i32 > maximal {
            Err(DemonError::PositionOutOfBounds { maximal })
        } else {
            Ok(())
        }
    }

    /// Checks that no entry is called `name`, ignoring case.
    pub fn validate_name(&self, name: &String) -> (r: Result<(), DemonError>)
        ensures
            r is Ok <==> !name_taken(self.rows@, name@),
            r matches Err(e) ==> e == DemonError::NameTaken,
    {
        match self.index_of(name) {
            Some(_) => Err(DemonError::NameTaken),
            None => Ok(()),
        }
    }

    /// The index of the entry called `name`, ignoring case.
    pub fn index_of(&self, name: &String) -> (r: Option<usize>)
        ensures
            r is None <==> !name_taken(self.rows@, name@),
            r matches Some(i) ==> i < self.rows@.len() && same_name(self.rows@[i as int].name@, name@),
    {
        let mut names: Vec<String> = Vec::new();
        let mut i: usize = 0;
        while i < self.rows.len()
            invariant
                0 <= i <= self.rows@.len(),
                names@.len() == i,
                forall|k: int| 0 <= k < i ==> (#[trigger] names@[k]) == self.rows@[k].name,
            decreases self.rows@.len() - i,
        {
            names.push(self.rows[i].name.clone());
            i += 1;
        }
        let keys = keys_of(&names);
        match find_by_key(&keys, &lowercase(name)) {
            Some(k) => {
                assert(same_name(self.rows@[k as int].name@, name@));
                Some(k)
            },
            None => {
                assert forall|j: int| 0 <= j < self.rows@.len() implies !same_name(
                    #[trigger] self.rows@[j].name@,
                    name@,
                ) by {
                    assert(keys@[j]@ != lower_of(name@));
                }
                None
            },
        }
    }
}

/// The lowest requirement an entry may have.
pub const MIN_REQUIREMENT: i16 = 0;

/// The highest requirement an entry may have.
pub const MAX_REQUIREMENT: i16 = 100;

impl Demon {
    /// Checks that a requirement lies within `0..=100`.
    pub fn validate_requirement(requirement: i16) -> (r: Result<(), DemonError>)
        ensures
            r is Ok <==> MIN_REQUIREMENT <= requirement <= MAX_REQUIREMENT,
            r matches Err(e) ==> e == DemonError::RequirementOutOfBounds,
    {
        if requirement < MIN_REQUIREMENT || requirement > MAX_REQUIREMENT {
            Err(DemonError::RequirementOutOfBounds)
        } else {
            Ok(())
        }
    }

    /// Every entry of the list, ordered by position.
    pub fn all(ledger: &Ledger) -> (r: Vec<Demon>)
        ensures
            r@ == ledger.rows@,
    {
        copy_rows(&ledger.rows)
    }

    /// The entry called `name`, ignoring case.
    pub fn by_name(ledger: &Ledger, name: &String) -> (r: Option<Demon>)
        ensures
            r is None <==> !name_taken(ledger.rows@, name@),
            r matches Some(d) ==> exists|i: int|
                0 <= i < ledger.rows@.len() && (#[trigger] ledger.rows@[i]) == d && same_name(
                    d.name@,
                    name@,
                ),
    {
        match ledger.index_of(name) {
            Some(i) => Some(ledger.rows[i].copy()),
            None => None,
        }
    }

    /// The entry at `position`.
    pub fn by_position(ledger: &Ledger, position: i16) -> (r: Option<Demon>)
        ensures
            r is Some <==> 1 <= position <= ledger.rows@.len(),
            r matches Some(d) ==> d == ledger.rows@[position - 1],
    {
        if position < 1 || position as usize > ledger.rows.len() {
            None
        } else {
            Some(ledger.rows[(position - 1) as usize].copy())
        }
    }
}

/// Opening a slot at `d.position` in a dense list and putting `d` there
/// leaves the list dense.
pub proof fn lemma_insert_dense(rows: Seq<Demon>, d: Demon)
    requires
        dense(rows),
        rows.len() < MAX_ENTRIES,
        1 <= d.position <= rows.len() + 1,
    ensures
        dense(shifted_down(rows, d.position as int).insert(d.position - 1, d)),
{
    let mid = shifted_down(rows, d.position as int);
    let post = mid.insert(d.position - 1, d);
    assert forall|i: int| 0 <= i < post.len() implies (#[trigger] post[i]).position == i + 1 by {
        if i < d.position - 1 {
            assert(post[i] == mid[i]);
        } else if i > d.position - 1 {
            assert(post[i] == mid[i - 1]);
        }
    }
}

/// Two inserts that target the same position, run one after the other as
/// the exclusive access to the list forces them to, never both keep that
/// position: the later one takes it and the earlier one is shifted to the
/// next, and the list stays dense.
pub proof fn lemma_serialized_inserts(rows: Seq<Demon>, first: Demon, second: Demon)
    requires
        dense(rows),
        rows.len() + 1 < MAX_ENTRIES,
        first.position == second.position,
        1 <= first.position <= rows.len() + 1,
    ensures
        ({
            let p = first.position as int;
            let once = shifted_down(rows, p).insert(p - 1, first);
            let twice = shifted_down(once, p).insert(p - 1, second);
            &&& dense(twice)
            &&& positions(twice) == Set::new(|q: int| 1 <= q <= rows.len() + 2)
            &&& twice[p - 1] == second
            &&& twice[p] == at_position(first, p + 1)
        }),
{
    let p = first.position as int;
    lemma_insert_dense(rows, first);
    let once = shifted_down(rows, p).insert(p - 1, first);
    lemma_insert_dense(once, second);
    let twice = shifted_down(once, p).insert(p - 1, second);
    assert(once[p - 1] == first);
    assert(twice[p] == shifted_down(once, p)[p - 1]);
    lemma_positions_dense(twice);
}

/// Whether a link does not belong to the entry called `name`.
pub open spec fn not_of(name: Seq<char>) -> spec_fn(CreatorLink) -> bool {
    |l: CreatorLink| l.demon@ != name
}

fn drop_links(links: &Vec<CreatorLink>, name: &String) -> (r: Vec<CreatorLink>)
    ensures
        r@ == links@.filter(not_of(name@)),
{
    let mut out: Vec<CreatorLink> = Vec::new();
    let mut i: usize = 0;
    while i < links.len()
        invariant
            0 <= i <= links@.len(),
            out@ == links@.subrange(0, i as int).filter(not_of(name@)),
        decreases links@.len() - i,
    {
        let ghost pre = links@.subrange(0, i as int);
        let ghost next = links@.subrange(0, i + 1);
        assert(next.drop_last() == pre);
        assert(next.last() == links@[i as int]);
        reveal_with_fuel(Seq::filter, 1);
        if links[i].demon != *name {
            out.push(CreatorLink { demon: links[i].demon.clone(), creator: links[i].creator });
        }
        i += 1;
    }
    assert(links@.subrange(0, i as int) == links@);
    out
}

impl Ledger {
    /// Deletes the entry at `position`: the gap it leaves is closed and its
    /// creator associations go with it.
    pub fn delete(&mut self, position: i16) -> (r: Demon)
        requires
            old(self).wf(),
            1 <= position <= old(self).rows@.len(),
        ensures
            final(self).wf(),
            r == old(self).rows@[position - 1],
            final(self).rows@ == shifted_up(old(self).rows@.remove(position - 1), position as int),
            final(self).links@ == old(self).links@.filter(not_of(r.name@)),
    {
        let ghost pre = self.rows@;
        let ghost before = self.links@;
        let r = self.take_out(position);
        self.links = drop_links(&self.links, &r.name);
        proof {
            let kept = self.links@;
            assert forall|k: int| 0 <= k < kept.len() implies has_entry_named(self.rows@, (#[trigger] kept[k]).demon@) by {
                before.lemma_filter_pred(not_of(r.name@), k);
                assert(kept.contains(kept[k]));
                before.lemma_filter_contains_rev(not_of(r.name@), kept[k]);
                let m = choose|m: int| 0 <= m < before.len() && before[m] == kept[k];
                assert(has_entry_named(pre, before[m].demon@));
                let i = choose|i: int| 0 <= i < pre.len() && (#[trigger] pre[i]).name@ == before[m].demon@;
                assert(i != position - 1);
                assert(has_entry_named(self.rows@, pre[i].name@));
            }
        }
        r
    }
}

/// Whether a link belongs to the entry called `name`.
pub open spec fn of_entry(name: Seq<char>) -> spec_fn(CreatorLink) -> bool {
    |l: CreatorLink| l.demon@ == name
}

/// The creators associated with the entry called `name`, in the order their
/// links were made.
pub open spec fn creators_of(links: Seq<CreatorLink>, name: Seq<char>) -> Seq<i32> {
    links.filter(of_entry(name)).map_values(|l: CreatorLink| l.creator)
}

pub(crate) fn creator_ids(links: &Vec<CreatorLink>, name: &String) -> (r: Vec<i32>)
    ensures
        r@ == creators_of(links@, name@),
{
    let mut out: Vec<i32> = Vec::new();
    let mut i: usize = 0;
    while i < links.len()
        invariant
            0 <= i <= links@.len(),
            out@ == creators_of(links@.subrange(0, i as int), name@),
        decreases links@.len() - i,
    {
        let ghost pre = links@.subrange(0, i as int);
        let ghost next = links@.subrange(0, i + 1);
        assert(next.drop_last() == pre);
        assert(next.last() == links@[i as int]);
        reveal_with_fuel(Seq::filter, 1);
        if links[i].demon == *name {
            let ghost kept = pre.filter(of_entry(name@));
            assert(kept.push(links@[i as int]).map_values(|l: CreatorLink| l.creator) =~= kept.map_values(
                |l: CreatorLink| l.creator,
            ).push(links@[i as int].creator));
            out.push(links[i].creator);
        }
        i += 1;
    }
    assert(links@.subrange(0, i as int) == links@);
    out
}

/// Filtering keeps a sequence whole when every element passes.
proof fn lemma_filter_keeps_all(s: Seq<CreatorLink>, pred: spec_fn(CreatorLink) -> bool)
    requires
        forall|k: int| 0 <= k < s.len() ==> pred(#[trigger] s[k]),
    ensures
        s.filter(pred) == s,
    decreases s.len(),
{
    reveal_with_fuel(Seq::filter, 1);
    if s.len() > 0 {
        let rest = s.drop_last();
        assert forall|k: int| 0 <= k < rest.len() implies pred(#[trigger] rest[k]) by {
            assert(rest[k] == s[k]);
        }
        lemma_filter_keeps_all(rest, pred);
        assert(pred(s[s.len() - 1]));
        assert(rest.push(s.last()) =~= s);
    }
}

/// Where no earlier link names `name` and every added one does, the
/// creators of `name` are exactly those of the added links.
pub proof fn lemma_creators_of_fresh(earlier: Seq<CreatorLink>, added: Seq<CreatorLink>, name: Seq<char>)
    requires
        forall|k: int| 0 <= k < earlier.len() ==> (#[trigger] earlier[k]).demon@ != name,
        forall|k: int| 0 <= k < added.len() ==> (#[trigger] added[k]).demon@ == name,
    ensures
        creators_of(earlier + added, name) == added.map_values(|l: CreatorLink| l.creator),
{
    let pred = of_entry(name);
    Seq::filter_distributes_over_add(earlier, added, pred);
    assert(earlier.all(|x: CreatorLink| !pred(x))) by {
        assert forall|k: int| 0 <= k < earlier.len() implies !pred(#[trigger] earlier[k]) by {}
    }
    earlier.lemma_all_neg_filter_empty(pred);
    assert(earlier.filter(pred) =~= Seq::<CreatorLink>::empty());
    lemma_filter_keeps_all(added, pred);
    assert(earlier.filter(pred) + added.filter(pred) =~= added);
}

/// An entry together with the identifiers of its creators.
#[derive(Debug)]
pub struct DemonWithCreators {
    pub demon: Demon,
    pub creators: Vec<i32>,
}

impl DemonWithCreators {
    /// The entry called `name`, ignoring case, with its creators.
    pub fn by_name(ledger: &Ledger, name: &String) -> (r: Option<DemonWithCreators>)
        ensures
            r is None <==> !name_taken(ledger.rows@, name@),
            r matches Some(h) ==> {
                &&& exists|i: int|
                    0 <= i < ledger.rows@.len() && (#[trigger] ledger.rows@[i]) == h.demon
                        && same_name(h.demon.name@, name@)
                &&& h.creators@ == creators_of(ledger.links@, h.demon.name@)
            },
    {
        match ledger.index_of(name) {
            Some(i) => {
                let demon = ledger.rows[i].copy();
                let creators = creator_ids(&ledger.links, &demon.name);
                Some(DemonWithCreators { demon, creators })
            },
            None => None,
        }
    }
}

impl Ledger {
    /// Whether the list is dense, uniquely named and every link names an
    /// entry, checked one by one.
    pub fn is_well_formed(&self) -> (r: bool)
        ensures
            r == self.wf(),
    {
        if self.rows.len() > MAX_ENTRIES {
            return false;
        }
        let mut names: Vec<String> = Vec::new();
        let mut i: usize = 0;
        while i < self.rows.len()
            invariant
                0 <= i <= self.rows@.len() <= MAX_ENTRIES,
                names@.len() == i,
                forall|k: int| 0 <= k < i ==> (#[trigger] names@[k]) == self.rows@[k].name,
                forall|k: int| 0 <= k < i ==> (#[trigger] self.rows@[k]).position == k + 1,
            decreases self.rows@.len() - i,
        {
            if self.rows[i].position as i32 != i as i32 + 1 {
                return false;
            }
            names.push(self.rows[i].name.clone());
            i += 1;
        }
        let keys = keys_of(&names);
        let mut j: usize = 0;
        while j < keys.len()
            invariant
                0 <= j <= keys@.len(),
                keys@.len() == self.rows@.len(),
                forall|k: int| 0 <= k < keys@.len() ==> (#[trigger] keys@[k])@ == lower_of(self.rows@[k].name@),
                forall|k: int| 0 <= k < j ==> first_of_key(keys@, k),
            decreases keys@.len() - j,
        {
            match find_by_key(&keys, &keys[j]) {
                Some(f) => {
                    if f != j {
                        assert(!unique_names(self.rows@)) by {
                            if f > j {
                                assert(keys@[j as int]@ == keys@[f as int]@);
                            }
                            assert(same_name(self.rows@[f as int].name@, self.rows@[j as int].name@));
                        }
                        return false;
                    }
                },
                None => {
                    assert(keys@[j as int]@ != keys@[j as int]@);
                },
            }
            j += 1;
        }
        assert forall|a: int, b: int|
            0 <= a < self.rows@.len() && 0 <= b < self.rows@.len() && a != b implies !same_name(
            #[trigger] self.rows@[a].name@,
            #[trigger] self.rows@[b].name@,
        ) by {
            if a < b {
                assert(first_of_key(keys@, b));
                assert(keys@[a]@ != keys@[b]@);
            } else {
                assert(first_of_key(keys@, a));
                assert(keys@[b]@ != keys@[a]@);
            }
        }
        let mut k: usize = 0;
        while k < self.links.len()
            invariant
                0 <= k <= self.links@.len(),
                names@.len() == self.rows@.len(),
                forall|m: int| 0 <= m < names@.len() ==> (#[trigger] names@[m]) == self.rows@[m].name,
                forall|m: int| 0 <= m < k ==> has_entry_named(self.rows@, (#[trigger] self.links@[m]).demon@),
            decreases self.links@.len() - k,
        {
            let mut i: usize = 0;
            let mut found = false;
            while i < names.len() && !found
                invariant
                    0 <= i <= names@.len(),
                    k < self.links@.len(),
                    names@.len() == self.rows@.len(),
                    forall|m: int| 0 <= m < names@.len() ==> (#[trigger] names@[m]) == self.rows@[m].name,
                    found ==> has_entry_named(self.rows@, self.links@[k as int].demon@),
                    !found ==> forall|m: int| 0 <= m < i ==> (#[trigger] self.rows@[m]).name@ != self.links@[k as int].demon@,
                decreases names@.len() - i,
            {
                if names[i] == self.links[k].demon {
                    found = true;
                    assert(self.rows@[i as int].name@ == self.links@[k as int].demon@);
                }
                i += 1;
            }
            if !found {
                assert(!has_entry_named(self.rows@, self.links@[k as int].demon@));
                assert(!links_named(self.rows@, self.links@));
                return false;
            }
            k += 1;
        }
        true
    }
}

/// A change to the list: an insert of an entry at its own position, a move
/// from one position to another, or a delete of the entry at a position.
#[derive(Debug)]
pub enum Change {
    Insert(Demon),
    Move(i16, i16),
    Delete(i16),
}

/// Whether `c` may be applied to `rows`: its positions are in range and an
/// insert leaves room.
pub open spec fn change_ok(rows: Seq<Demon>, c: Change) -> bool {
    match c {
        Change::Insert(d) => rows.len() < MAX_ENTRIES && 1 <= d.position <= rows.len() + 1,
        Change::Move(from, to) => 1 <= from <= rows.len() && 1 <= to <= rows.len(),
        Change::Delete(p) => 1 <= p <= rows.len(),
    }
}

/// The entries after `c`, as `Ledger::insert`, `Ledger::move_to` and
/// `Ledger::delete` leave them.
pub open spec fn apply_change(rows: Seq<Demon>, c: Change) -> Seq<Demon> {
    match c {
        Change::Insert(d) => shifted_down(rows, d.position as int).insert(d.position - 1, d),
        Change::Move(from, to) => shifted_down(shifted_up(rows.remove(from - 1), from as int), to as int).insert(
            to - 1,
            at_position(rows[from - 1], to as int),
        ),
        Change::Delete(p) => shifted_up(rows.remove(p - 1), p as int),
    }
}

/// The entries after each of `cs` in turn.
pub open spec fn apply_changes(rows: Seq<Demon>, cs: Seq<Change>) -> Seq<Demon>
    decreases cs.len(),
{
    if cs.len() == 0 {
        rows
    } else {
        apply_changes(apply_change(rows, cs[0]), cs.drop_first())
    }
}

/// Whether each of `cs` may be applied where it comes.
pub open spec fn changes_ok(rows: Seq<Demon>, cs: Seq<Change>) -> bool
    decreases cs.len(),
{
    cs.len() == 0 || (change_ok(rows, cs[0]) && changes_ok(apply_change(rows, cs[0]), cs.drop_first()))
}

/// Closing the gap left by the entry at `p` keeps a dense list dense.
pub proof fn lemma_remove_dense(rows: Seq<Demon>, p: int)
    requires
        dense(rows),
        1 <= p <= rows.len(),
    ensures
        dense(shifted_up(rows.remove(p - 1), p)),
{
    let mid = rows.remove(p - 1);
    let post = shifted_up(mid, p);
    assert forall|i: int| 0 <= i < post.len() implies (#[trigger] post[i]).position == i + 1 by {
        if i < p - 1 {
            assert(mid[i] == rows[i]);
        } else {
            assert(mid[i] == rows[i + 1]);
        }
    }
}

/// Whatever inserts, moves and deletes are made, one after the other, the
/// positions of the entries stay exactly `1..=N` for the current count `N`:
/// no gaps and no duplicates.
pub proof fn lemma_changes_keep_dense(rows: Seq<Demon>, cs: Seq<Change>)
    requires
        dense(rows),
        changes_ok(rows, cs),
    ensures
        dense(apply_changes(rows, cs)),
        positions(apply_changes(rows, cs)) == Set::new(
            |p: int| 1 <= p <= apply_changes(rows, cs).len(),
        ),
    decreases cs.len(),
{
    if cs.len() > 0 {
        let next = apply_change(rows, cs[0]);
        match cs[0] {
            Change::Insert(d) => {
                lemma_insert_dense(rows, d);
            },
            Change::Move(from, to) => {
                lemma_remove_dense(rows, from as int);
                lemma_insert_dense(
                    shifted_up(rows.remove(from - 1), from as int),
                    at_position(rows[from - 1], to as int),
                );
            },
            Change::Delete(p) => {
                lemma_remove_dense(rows, p as int);
            },
        }
        lemma_changes_keep_dense(next, cs.drop_first());
    } else {
        lemma_positions_dense(rows);
    }
}

} // verus!
