use vstd::prelude::*;
use crate::error::DemonError;
use crate::ledger::{creator_ids, creators_of, DemonWithCreators, has_entry_named, lemma_creators_of_fresh, shifted_down, name_taken, Demon, CreatorLink, Ledger, MAX_ENTRIES, MIN_REQUIREMENT, MAX_REQUIREMENT};
use crate::video::{self, valid_video};
use crate::names::{dedup_names, distinct_names, drawn_from, find_player, has_player, holds_name, same_name, Player};

verus! {

/// A request to create an entry.
#[derive(Debug)]
pub struct PostDemon {
    pub name: String,
    pub position: i16,
    pub requirement: i16,
    pub verifier: String,
    pub publisher: String,
    pub creators: Vec<String>,
    pub video: Option<String>,
}

/// The row written for a new entry, with its players resolved.
#[derive(Debug)]
pub struct NewDemon {
    pub name: String,
    pub position: i16,
    pub requirement: i16,
    pub verifier: i32,
    pub publisher: i32,
    pub video: Option<String>,
}

impl NewDemon {
    /// The entry this row describes.
    pub fn into_demon(self) -> (r: Demon)
        ensures
            r == (Demon {
                name: self.name,
                position: self.position,
                requirement: self.requirement,
                video: self.video,
                verifier: self.verifier,
                publisher: self.publisher,
            }),
    {
        Demon {
            name: self.name,
            position: self.position,
            requirement: self.requirement,
            video: self.video,
            verifier: self.verifier,
            publisher: self.publisher,
        }
    }
}

/// What the caller brings along: whether it may change the list (a list
/// moderator or administrator), and the players that names resolve to.
#[derive(Debug)]
pub struct RequestContext {
    pub may_edit_list: bool,
    pub players: Vec<Player>,
}

/// Whether `id` belongs to a player called `name`, ignoring case.
pub open spec fn player_id(players: Seq<Player>, name: Seq<char>, id: i32) -> bool {
    exists|i: int| 0 <= i < players.len() && same_name(#[trigger] players[i].name@, name) && players[i].id == id
}

/// Whether a video reference is given and is not well formed.
pub open spec fn video_malformed(video: Option<String>) -> bool {
    match video {
        Some(v) => !valid_video(v@),
        None => false,
    }
}

/// The first failure that a request meets before any creator is attached,
/// in the order the checks are made; `None` where it passes them all.
pub open spec fn create_error(data: PostDemon, rows: Seq<Demon>, ctx: RequestContext) -> Option<DemonError> {
    if !ctx.may_edit_list {
        Some(DemonError::Unauthorized)
    } else if !(MIN_REQUIREMENT <= data.requirement <= MAX_REQUIREMENT) {
        Some(DemonError::RequirementOutOfBounds)
    } else if video_malformed(data.video) {
        Some(DemonError::MalformedVideo)
    } else if name_taken(rows, data.name@) {
        Some(DemonError::NameTaken)
    } else if !(1 <= data.position <= rows.len() + 1) {
        Some(DemonError::PositionOutOfBounds { maximal: (rows.len() + 1) as i32 })
    } else if rows.len() >= MAX_ENTRIES {
        Some(DemonError::ListFull)
    } else if !has_player(ctx.players@, data.publisher@) {
        Some(DemonError::PlayerNotFound { name: data.publisher })
    } else if !has_player(ctx.players@, data.verifier@) {
        Some(DemonError::PlayerNotFound { name: data.verifier })
    } else {
        None
    }
}

/// Whether some creator of the request names no known player.
pub open spec fn creator_missing(data: PostDemon, ctx: RequestContext) -> bool {
    exists|j: int| 0 <= j < data.creators@.len() && !has_player(ctx.players@, (#[trigger] data.creators@[j])@)
}

/// Whether `added` associates the entry `name` with the player of each of
/// `creators`, one after the other.
pub open spec fn links_to(added: Seq<CreatorLink>, name: Seq<char>, creators: Seq<String>, players: Seq<Player>) -> bool {
    &&& added.len() == creators.len()
    &&& forall|j: int| 0 <= j < added.len() ==> (#[trigger] added[j]).demon@ == name && player_id(players, creators[j]@, added[j].creator)
}

/// Whether `c` holds each creator of `creators` exactly once, ignoring case.
pub open spec fn collapsed(c: Seq<String>, creators: Seq<String>) -> bool {
    &&& distinct_names(c)
    &&& drawn_from(c, creators)
    &&& forall|j: int| 0 <= j < creators.len() ==> holds_name(c, (#[trigger] creators[j])@)
}

impl Demon {
    /// Creates an entry as one all-or-nothing step: checks the caller, the
    /// requirement, the video reference, the name and the position, resolves
    /// the publisher and the verifier, opens the slot and writes the entry,
    /// and attaches each creator once however often it is named. On any
    /// failure the list is left exactly as it was.
    pub fn create_from(data: PostDemon, ledger: &mut Ledger, ctx: &RequestContext) -> (r: Result<Demon, DemonError>)
        requires
            old(ledger).wf(),
        ensures
            final(ledger).wf(),
            r is Err ==> *final(ledger) == *old(ledger),
            create_error(data, old(ledger).rows@, *ctx) matches Some(e) ==> r == Err::<Demon, DemonError>(e),
            create_error(data, old(ledger).rows@, *ctx) is None && creator_missing(data, *ctx) ==> (r matches Err(DemonError::PlayerNotFound { name }) && holds_name(data.creators@, name@) && !has_player(ctx.players@, name@)),
            create_error(data, old(ledger).rows@, *ctx) is None && !creator_missing(data, *ctx) ==> r is Ok,
            r matches Ok(d) ==> {
                &&& d.name == data.name
                &&& d.position == data.position
                &&& d.requirement == data.requirement
                &&& d.video == data.video
                &&& player_id(ctx.players@, data.publisher@, d.publisher)
                &&& player_id(ctx.players@, data.verifier@, d.verifier)
                &&& final(ledger).rows@ == shifted_down(old(ledger).rows@, d.position as int).insert(d.position - 1, d)
                &&& final(ledger).links@.subrange(0, old(ledger).links@.len() as int) == old(ledger).links@
                &&& creators_of(final(ledger).links@, d.name@) == final(ledger).links@.subrange(
                    old(ledger).links@.len() as int,
                    final(ledger).links@.len() as int,
                ).map_values(|l: CreatorLink| l.creator)
                &&& exists|c: Seq<String>| collapsed(c, data.creators@) && links_to(
                    final(ledger).links@.subrange(old(ledger).links@.len() as int, final(ledger).links@.len() as int),
                    d.name@, c, ctx.players@)
            },
    {
        if !ctx.may_edit_list {
            return Err(DemonError::Unauthorized);
        }
        Demon::validate_requirement(data.requirement)?;
        match &data.video {
            Some(v) => video::validate(v)?,
            None => {},
        }
        ledger.validate_name(&data.name)?;
        ledger.validate_position(data.position)?;
        if ledger.len() >= MAX_ENTRIES {
            return Err(DemonError::ListFull);
        }
        let publisher = match find_player(&ctx.players, &data.publisher) {
            Some(id) => id,
            None => {
                return Err(DemonError::PlayerNotFound { name: data.publisher });
            },
        };
        let verifier = match find_player(&ctx.players, &data.verifier) {
            Some(id) => id,
            None => {
                return Err(DemonError::PlayerNotFound { name: data.verifier });
            },
        };

        let mut tx = ledger.begin();
        let new = NewDemon {
            name: data.name,
            position: data.position,
            requirement: data.requirement,
            verifier,
            publisher,
            video: data.video,
        };
        let demon = new.into_demon();
        let result = demon.copy();
        tx.insert(demon);

        let creators = dedup_names(&data.creators);
        let ghost start = tx.links@;
        let mut j: usize = 0;
        while j < creators.len()
            invariant
                0 <= j <= creators@.len(),
                tx.wf(),
                tx.links@.len() == start.len() + j,
                tx.links@.subrange(0, start.len() as int) == start,
                tx.rows@ == shifted_down(old(ledger).rows@, result.position as int).insert(result.position - 1, result),
                links_to(tx.links@.subrange(start.len() as int, tx.links@.len() as int), result.name@, creators@.subrange(0, j as int), ctx.players@),
                collapsed(creators@, data.creators@),
                1 <= result.position <= old(ledger).rows@.len() + 1,
                result.name == data.name,
                *ledger == *old(ledger),
                old(ledger).wf(),
                create_error(data, old(ledger).rows@, *ctx) is None,
                forall|k: int| 0 <= k < j ==> has_player(ctx.players@, (#[trigger] creators@[k])@),
            decreases creators@.len() - j,
        {
            match find_player(&ctx.players, &creators[j]) {
                Some(id) => {
                    let ghost before = tx.links@;
                    tx.links.push(CreatorLink { demon: result.name.clone(), creator: id });
                    assert(tx.rows@[result.position - 1] == result);
                    assert forall|k: int| 0 <= k < tx.links@.len() implies has_entry_named(tx.rows@, (#[trigger] tx.links@[k]).demon@) by {
                        if k < before.len() {
                            assert(tx.links@[k] == before[k]);
                        } else {
                            assert(tx.rows@[result.position - 1].name@ == tx.links@[k].demon@);
                        }
                    }
                    assert(tx.links@.subrange(0, start.len() as int) == before.subrange(0, start.len() as int));
                    assert(tx.links@.subrange(start.len() as int, tx.links@.len() as int) == before.subrange(start.len() as int, before.len() as int).push(tx.links@.last()));
                    assert(creators@.subrange(0, j + 1) == creators@.subrange(0, j as int).push(creators@[j as int]));
                },
                None => {
                    let ghost k = choose|k: int| 0 <= k < data.creators@.len() && (#[trigger] creators@[j as int])@ == data.creators@[k]@;
                    assert(same_name(data.creators@[k]@, creators@[j as int]@));
                    return Err(DemonError::PlayerNotFound { name: creators[j].clone() });
                },
            }
            j += 1;
        }
        assert(creators@.subrange(0, j as int) == creators@);
        proof {
            let added = tx.links@.subrange(start.len() as int, tx.links@.len() as int);
            assert forall|k: int| 0 <= k < start.len() implies (#[trigger] start[k]).demon@ != result.name@ by {
                let i = choose|i: int| 0 <= i < old(ledger).rows@.len() && (#[trigger] old(ledger).rows@[i]).name@ == start[k].demon@;
                if start[k].demon@ == result.name@ {
                    assert(same_name(old(ledger).rows@[i].name@, data.name@));
                }
            }
            assert(start + added =~= tx.links@);
            lemma_creators_of_fresh(start, added, result.name@);
        }
        assert forall|k: int| 0 <= k < data.creators@.len() implies has_player(ctx.players@, (#[trigger] data.creators@[k])@) by {
            assert(holds_name(creators@, data.creators@[k]@));
            let w = choose|w: int| 0 <= w < creators@.len() && same_name(#[trigger] creators@[w]@, data.creators@[k]@);
            assert(has_player(ctx.players@, creators@[w]@));
            let v = choose|v: int| 0 <= v < ctx.players@.len() && same_name(#[trigger] ctx.players@[v].name@, creators@[w]@);
            assert(same_name(ctx.players@[v].name@, data.creators@[k]@));
        }
        *ledger = tx;
        Ok(result)
    }
}

/// Whether `ids` holds, one for each creator of `creators` collapsed by
/// case, the identifier of that creator's player, in the collapsed order.
pub open spec fn attached(ids: Seq<i32>, creators: Seq<String>, players: Seq<Player>) -> bool {
    exists|c: Seq<String>|
        collapsed(c, creators) && ids.len() == c.len() && forall|j: int|
            0 <= j < ids.len() ==> player_id(players, (#[trigger] c[j])@, ids[j])
}

impl DemonWithCreators {
    /// Creates an entry as `Demon::create_from` does and answers with it,
    /// its players resolved and its creators attached.
    pub fn create_from(data: PostDemon, ledger: &mut Ledger, ctx: &RequestContext) -> (r: Result<DemonWithCreators, DemonError>)
        requires
            old(ledger).wf(),
        ensures
            final(ledger).wf(),
            r is Err ==> *final(ledger) == *old(ledger),
            create_error(data, old(ledger).rows@, *ctx) matches Some(e) ==> r matches Err(x) && x == e,
            create_error(data, old(ledger).rows@, *ctx) is None && creator_missing(data, *ctx) ==> (r matches Err(DemonError::PlayerNotFound { name }) && holds_name(data.creators@, name@) && !has_player(ctx.players@, name@)),
            create_error(data, old(ledger).rows@, *ctx) is None && !creator_missing(data, *ctx) ==> r is Ok,
            r matches Ok(h) ==> {
                &&& h.demon.name == data.name
                &&& h.demon.position == data.position
                &&& h.demon.requirement == data.requirement
                &&& h.demon.video == data.video
                &&& player_id(ctx.players@, data.publisher@, h.demon.publisher)
                &&& player_id(ctx.players@, data.verifier@, h.demon.verifier)
                &&& final(ledger).rows@ == shifted_down(old(ledger).rows@, h.demon.position as int).insert(h.demon.position - 1, h.demon)
                &&& h.creators@ == creators_of(final(ledger).links@, h.demon.name@)
                &&& attached(h.creators@, data.creators@, ctx.players@)
            },
    {
        let ghost players = ctx.players@;
        let ghost creators = data.creators@;
        let ghost start = ledger.links@.len();
        let demon = Demon::create_from(data, ledger, ctx)?;
        let ids = creator_ids(&ledger.links, &demon.name);
        proof {
            let added = ledger.links@.subrange(start as int, ledger.links@.len() as int);
            let c = choose|c: Seq<String>| collapsed(c, creators) && links_to(added, demon.name@, c, players);
            let m = added.map_values(|l: CreatorLink| l.creator);
            assert(ids@ == m);
            assert forall|j: int| 0 <= j < ids@.len() implies player_id(players, (#[trigger] c[j])@, ids@[j]) by {
                assert(ids@[j] == added[j].creator);
            }
        }
        Ok(DemonWithCreators { demon, creators: ids })
    }
}

} // verus!
