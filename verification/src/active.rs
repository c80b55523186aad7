//! The bots that the terminal speaks to.

use vstd::prelude::*;

use crate::text::trim;
use crate::text::trimmed;

verus! {

/// A bot that is in the game, with the handle by which to reach it.
#[derive(Debug, PartialEq, Eq)]
pub struct ActiveBot<C> {
    pub uuid: u128,
    pub client: C,
}

/// The bots that are in the game, in the order in which they came.
pub struct ActiveBots<C> {
    pub bots: Vec<ActiveBot<C>>,
}

/// Whether a bot with this identifier is among them.
pub open spec fn is_active<C>(bots: Seq<ActiveBot<C>>, uuid: u128) -> bool {
    exists|i: int| 0 <= i < bots.len() && (#[trigger] bots[i]).uuid == uuid
}

/// The bots after one has come; one that is there already stays as it is.
pub open spec fn with_active<C>(bots: Seq<ActiveBot<C>>, bot: ActiveBot<C>) -> Seq<ActiveBot<C>> {
    if is_active(bots, bot.uuid) {
        bots
    } else {
        bots.push(bot)
    }
}

/// The bots after one has gone.
pub open spec fn without_active<C>(bots: Seq<ActiveBot<C>>, uuid: u128) -> Seq<ActiveBot<C>> {
    bots.filter(|b: ActiveBot<C>| b.uuid != uuid)
}

/// Whether no bot is there twice.
pub open spec fn all_distinct<C>(bots: Seq<ActiveBot<C>>) -> bool {
    forall|i: int, j: int|
        0 <= i < j < bots.len() ==> (#[trigger] bots[i]).uuid != (#[trigger] bots[j]).uuid
}

impl<C> ActiveBots<C> {
    /// No bot is there.
    pub fn new() -> (res: Self)
        ensures
            res.bots@ == Seq::<ActiveBot<C>>::empty(),
    {
        ActiveBots { bots: Vec::new() }
    }

    /// Takes a bot in, unless it is there already.
    pub fn add_active_bot(&mut self, uuid: u128, client: C)
        ensures
            final(self).bots@ == with_active(old(self).bots@, (ActiveBot { uuid, client })),
    {
        let mut i: usize = 0;
        while i < self.bots.len()
            invariant
                i <= self.bots@.len(),
                self.bots == old(self).bots,
                forall|j: int| 0 <= j < i ==> (#[trigger] self.bots@[j]).uuid != uuid,
            decreases self.bots.len() - i,
        {
            if self.bots[i].uuid == uuid {
                assert(is_active(old(self).bots@, uuid));
                return;
            }
            i = i + 1;
        }
        self.bots.push(ActiveBot { uuid, client });
    }

    /// Lets a bot go.
    pub fn remove_active_bot(&mut self, uuid: u128)
        ensures
            final(self).bots@ == without_active(old(self).bots@, uuid),
    {
        let ghost was = self.bots@;
        let ghost stays = |b: ActiveBot<C>| b.uuid != uuid;
        let ghost mut seen: int = 0;
        let mut i: usize = 0;
        assert(was.take(0).filter(stays) =~= seq![]) by {
            reveal(Seq::filter);
        }
        assert(was.skip(0) =~= was);
        assert(self.bots@.skip(0) =~= self.bots@);
        while i < self.bots.len()
            invariant
                i <= self.bots@.len(),
                0 <= seen <= was.len(),
                stays == (|b: ActiveBot<C>| b.uuid != uuid),
                self.bots@.take(i as int) == was.take(seen).filter(stays),
                self.bots@.skip(i as int) == was.skip(seen),
            decreases self.bots.len() - i,
        {
            let ghost list = self.bots@;
            assert(list[i as int] == list.skip(i as int)[0]);
            assert(was.skip(seen).len() == list.skip(i as int).len() == list.len() - i);
            assert(was[seen] == was.skip(seen)[0]);
            assert(was.take(seen + 1).drop_last() =~= was.take(seen));
            assert(was.take(seen + 1).last() == was[seen]);
            proof {
                reveal(Seq::filter);
            }
            assert(was.skip(seen + 1) =~= was.skip(seen).drop_first());
            if self.bots[i].uuid == uuid {
                self.bots.remove(i);
                assert(self.bots@.take(i as int) =~= list.take(i as int));
                assert(self.bots@.skip(i as int) =~= list.skip(i as int).drop_first());
            } else {
                assert(list.take(i + 1) =~= list.take(i as int).push(list[i as int]));
                assert(list.skip(i + 1) =~= list.skip(i as int).drop_first());
                i = i + 1;
            }
            proof {
                seen = seen + 1;
            }
        }
        assert(was.skip(seen).len() == 0);
        assert(was.take(seen) =~= was);
        assert(self.bots@.take(i as int) =~= self.bots@);
    }
}

/// Bots that come and go never make one bot be there twice: a line typed at the
/// terminal is said once by each.
pub proof fn law_no_bot_is_there_twice<C>(bots: Seq<ActiveBot<C>>, bot: ActiveBot<C>, uuid: u128)
    requires
        all_distinct(bots),
    ensures
        all_distinct(with_active(bots, bot)),
        all_distinct(without_active(bots, uuid)),
    decreases bots.len(),
{
    let stays = |b: ActiveBot<C>| b.uuid != uuid;
    assert forall|i: int, j: int|
        0 <= i < j < with_active(bots, bot).len() implies (#[trigger] with_active(
        bots,
        bot,
    )[i]).uuid != (#[trigger] with_active(bots, bot)[j]).uuid by {
        if !is_active(bots, bot.uuid) && j == bots.len() {
            assert(bots[i].uuid != bot.uuid);
        }
    }
    reveal(Seq::filter);
    if bots.len() > 0 {
        law_no_bot_is_there_twice(bots.drop_last(), bot, uuid);
        let less = without_active(bots.drop_last(), uuid);
        if stays(bots.last()) {
            assert forall|i: int, j: int|
                0 <= i < j < less.push(bots.last()).len() implies (#[trigger] less.push(
                bots.last(),
            )[i]).uuid != (#[trigger] less.push(bots.last())[j]).uuid by {
                if j == less.len() {
                    lemma_stays_among(bots.drop_last(), uuid, i);
                    let k = choose|k: int|
                        0 <= k < bots.len() - 1 && bots.drop_last()[k] == less[i];
                    assert(bots[k] == less[i]);
                    assert(bots[k].uuid != bots[bots.len() - 1].uuid);
                } else {
                    assert(less[i].uuid != less[j].uuid);
                }
            }
        }
    }
}

/// Those that stay were there before.
proof fn lemma_stays_among<C>(bots: Seq<ActiveBot<C>>, uuid: u128, i: int)
    requires
        0 <= i < without_active(bots, uuid).len(),
    ensures
        exists|k: int| 0 <= k < bots.len() && #[trigger] bots[k] == without_active(bots, uuid)[i],
        without_active(bots, uuid)[i].uuid != uuid,
    decreases bots.len(),
{
    reveal(Seq::filter);
    if bots.len() > 0 {
        let less = without_active(bots.drop_last(), uuid);
        if i < less.len() {
            lemma_stays_among(bots.drop_last(), uuid, i);
            let k = choose|k: int| 0 <= k < bots.len() - 1 && bots.drop_last()[k] == less[i];
            assert(bots[k] == less[i]);
        } else {
            assert(bots[bots.len() - 1] == without_active(bots, uuid)[i]);
        }
    }
}

/// Nobody goes where nobody has that identifier.
proof fn lemma_nobody_goes<C>(bots: Seq<ActiveBot<C>>, uuid: u128)
    requires
        !is_active(bots, uuid),
    ensures
        without_active(bots, uuid) == bots,
    decreases bots.len(),
{
    reveal(Seq::filter);
    if bots.len() > 0 {
        assert(bots[bots.len() - 1].uuid != uuid);
        assert forall|i: int| 0 <= i < bots.len() - 1 implies (
        #[trigger] bots.drop_last()[i]).uuid != uuid by {
            assert(bots[i].uuid != uuid);
        }
        lemma_nobody_goes(bots.drop_last(), uuid);
        assert(bots.drop_last().push(bots.last()) =~= bots);
    } else {
        assert(without_active(bots, uuid) =~= bots);
    }
}

/// A bot that has come is there until it goes, and then it is not; a bot that was
/// not there before leaves the others, when it has come and gone, as they were.
pub proof fn law_coming_and_going<C>(bots: Seq<ActiveBot<C>>, bot: ActiveBot<C>)
    ensures
        is_active(with_active(bots, bot), bot.uuid),
        !is_active(without_active(bots, bot.uuid), bot.uuid),
        !is_active(bots, bot.uuid) ==> without_active(with_active(bots, bot), bot.uuid) == bots,
{
    if !is_active(bots, bot.uuid) {
        reveal(Seq::filter);
        lemma_nobody_goes(bots, bot.uuid);
        assert(with_active(bots, bot).drop_last() =~= bots);
    }
    if !is_active(bots, bot.uuid) {
        let now = with_active(bots, bot);
        assert(now[bots.len() as int].uuid == bot.uuid);
    }
    if is_active(without_active(bots, bot.uuid), bot.uuid) {
        let i = choose|i: int|
            0 <= i < without_active(bots, bot.uuid).len() && (#[trigger] without_active(
                bots,
                bot.uuid,
            )[i]).uuid == bot.uuid;
        lemma_stays_among(bots, bot.uuid, i);
    }
}

/// What a line typed at the terminal makes every bot say: the line without the
/// white space around it, and nothing where that leaves nothing.
pub fn chat_line(line: &str) -> (res: Option<String>)
    ensures
        match res {
            Some(said) => said@ == trimmed(line@) && said@.len() > 0,
            None => trimmed(line@).len() == 0,
        },
{
    let said: String = trim(line);
    if said.as_str().is_empty() {
        None
    } else {
        Some(said)
    }
}

/// When a bot goes, everybody with its identifier goes, everybody else stays, and
/// those who stay keep their order: it makes no difference whether the list is taken
/// whole or in two parts.
pub proof fn law_going_takes_one_bot_only<C>(bots: Seq<ActiveBot<C>>, uuid: u128)
    ensures
        forall|i: int|
            0 <= i < without_active(bots, uuid).len() ==> (#[trigger] without_active(
                bots,
                uuid,
            )[i]).uuid != uuid,
        forall|i: int|
            0 <= i < bots.len() && (#[trigger] bots[i]).uuid != uuid ==> without_active(
                bots,
                uuid,
            ).contains(bots[i]),
        (forall|i: int| 0 <= i < bots.len() ==> (#[trigger] bots[i]).uuid != uuid)
            ==> without_active(bots, uuid) == bots,
        bots.len() > 0 ==> without_active(bots, uuid) == without_active(bots.drop_last(), uuid) + (
        if bots.last().uuid == uuid {
            seq![]
        } else {
            seq![bots.last()]
        }),
    decreases bots.len(),
{
    reveal(Seq::filter);
    let after = without_active(bots, uuid);
    assert forall|i: int| 0 <= i < after.len() implies (#[trigger] after[i]).uuid != uuid by {
        lemma_stays_among(bots, uuid, i);
    }
    if bots.len() > 0 {
        let less = without_active(bots.drop_last(), uuid);
        law_going_takes_one_bot_only(bots.drop_last(), uuid);
        assert forall|i: int|
            0 <= i < bots.len() && (#[trigger] bots[i]).uuid != uuid implies after.contains(
            bots[i],
        ) by {
            if i == bots.len() - 1 {
                assert(after[less.len() as int] == bots[i]);
            } else {
                assert(bots.drop_last()[i] == bots[i]);
                let k = choose|k: int| 0 <= k < less.len() && less[k] == bots[i];
                assert(after[k] == bots[i]);
            }
        }
    }
    if forall|i: int| 0 <= i < bots.len() ==> (#[trigger] bots[i]).uuid != uuid {
        lemma_nobody_goes(bots, uuid);
    }
}

/// A bot that comes is put last, unless one with its identifier is there, wherever
/// that stands: then everything stays as it is.
pub proof fn law_coming_puts_last<C>(bots: Seq<ActiveBot<C>>, bot: ActiveBot<C>, place: int)
    ensures
        0 <= place < bots.len() && bots[place].uuid == bot.uuid ==> with_active(bots, bot) == bots,
        (forall|i: int| 0 <= i < bots.len() ==> (#[trigger] bots[i]).uuid != bot.uuid)
            ==> with_active(bots, bot) == bots + seq![bot],
{
    assert(bots.push(bot) =~= bots + seq![bot]);
}

} // verus!
