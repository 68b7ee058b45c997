use vstd::prelude::*;

use crate::inventory::{holds_any, ItemClass};
use crate::players::{is_occupant, views, Player, PlayerView, Players};
use crate::rules::{
    choice_fits, interact, interaction, offered, robbery, robbery_offer, victim, ShakeDownChoice,
};

verus! {

/// What an encounter waits for when it stops.
#[derive(Clone, Copy, PartialEq, Eq, Structural, Debug)]
pub enum Prompt {
    /// Every member of the queue has been visited.
    Finished,
    /// A gnome shakes the explorer down: the explorer must choose what to
    /// hand over. `gold` and `fake` say which coins it can be asked for;
    /// everything can always be asked for.
    ShakeDown { gold: bool, fake: bool },
}

/// Active player `a` meets queue member `m` with choice `c`: they interact
/// when `m` stands on `a`'s cell, and both stay as they are otherwise.
pub open spec fn visit(a: PlayerView, m: PlayerView, c: ShakeDownChoice) -> (PlayerView, PlayerView) {
    if m.pos == a.pos {
        interaction(a, m, c)
    } else {
        (a, m)
    }
}

/// Whether the meeting of `a` and `m` waits for the explorer's choice.
pub open spec fn needs_choice(a: PlayerView, m: PlayerView) -> bool {
    m.pos == a.pos && robbery(a, m)
}

/// The active player and the visited members after the first `n` members
/// of `ms` have met `a` in order, member `i` with choice `cs[i]`.
pub open spec fn resolve(a: PlayerView, ms: Seq<PlayerView>, cs: Seq<ShakeDownChoice>, n: nat) -> (
    PlayerView,
    Seq<PlayerView>,
)
    decreases n,
{
    if n == 0 {
        (a, Seq::empty())
    } else {
        let prev = resolve(a, ms, cs, (n - 1) as nat);
        let met = visit(prev.0, ms[n - 1], cs[n - 1]);
        (met.0, prev.1.push(met.1))
    }
}

/// After `n` members, as many have been visited, and the active player is
/// still on its cell, of its kind.
pub proof fn lemma_resolve_shape(a: PlayerView, ms: Seq<PlayerView>, cs: Seq<ShakeDownChoice>, n: nat)
    ensures
        resolve(a, ms, cs, n).1.len() == n,
        resolve(a, ms, cs, n).0.pos == a.pos,
        resolve(a, ms, cs, n).0.kind == a.kind,
    decreases n,
{
    if n > 0 {
        lemma_resolve_shape(a, ms, cs, (n - 1) as nat);
    }
}

/// Only the first `n` choices count.
pub proof fn lemma_resolve_prefix(
    a: PlayerView,
    ms: Seq<PlayerView>,
    cs: Seq<ShakeDownChoice>,
    ds: Seq<ShakeDownChoice>,
    n: nat,
)
    requires
        n <= cs.len(),
        n <= ds.len(),
        forall|i: int| 0 <= i < n ==> cs[i] == ds[i],
    ensures
        resolve(a, ms, cs, n) == resolve(a, ms, ds, n),
    decreases n,
{
    if n > 0 {
        lemma_resolve_prefix(a, ms, cs, ds, (n - 1) as nat);
    }
}

/// Moving the front player of a queue to the back, changed to `x`, moves
/// its view the same way.
proof fn lemma_views_rotate(s: Seq<Player>, x: Player)
    requires
        s.len() > 0,
    ensures
        views(s.subrange(1, s.len() as int).push(x)) =~= views(s).subrange(1, s.len() as int).push(x@),
{
}

/// The resolution of one encounter, run as a state machine: `resume`
/// rotates the queue once, front to back, and stops where a shake down
/// waits for the explorer's choice, which `answer` supplies.
pub struct Encounter {
    active: Player,
    others: Players,
    total: usize,
    visited: usize,
    start: Ghost<PlayerView>,
    members: Ghost<Seq<PlayerView>>,
    choices: Ghost<Seq<ShakeDownChoice>>,
}

impl Encounter {
    /// The active player when the encounter began.
    pub closed spec fn start(&self) -> PlayerView {
        self.start@
    }

    /// The queue when the encounter began, front to back.
    pub closed spec fn members(&self) -> Seq<PlayerView> {
        self.members@
    }

    /// One choice for each member visited so far; it counts only where
    /// the member's meeting waited for one.
    pub closed spec fn choices(&self) -> Seq<ShakeDownChoice> {
        self.choices@
    }

    /// The number of members visited so far.
    pub closed spec fn visited(&self) -> nat {
        self.visited as nat
    }

    /// The active player now.
    pub closed spec fn active(&self) -> PlayerView {
        self.active@
    }

    /// The queue now, front to back.
    pub closed spec fn queue(&self) -> Seq<PlayerView> {
        views(self.others@)
    }

    /// The rotation runs for as many turns as the queue had members when
    /// the encounter began.
    pub closed spec fn sized(&self) -> bool {
        self.total == self.members@.len()
    }

    /// The encounter's state is the resolution of its first `visited`
    /// members: the members not yet visited stand at the front of the
    /// queue, in their order, and the visited ones behind them.
    pub open spec fn wf(&self) -> bool {
        let done = resolve(self.start(), self.members(), self.choices(), self.visited());
        &&& self.sized()
        &&& self.visited() <= self.members().len()
        &&& self.choices().len() == self.visited()
        &&& self.active() == done.0
        &&& self.queue() == self.members().subrange(self.visited() as int, self.members().len() as int)
            + done.1
        &&& forall|i: int|
            0 <= i < self.visited() ==> choice_fits(
                #[trigger] resolve(self.start(), self.members(), self.choices(), i as nat).0,
                self.members()[i],
                self.choices()[i],
            )
    }

    /// The queue holds every member once; the next member to visit stands
    /// at its front.
    proof fn lemma_front(&self)
        requires
            self.wf(),
        ensures
            self.others@.len() == self.total,
            self.visited < self.total ==> self.others@[0]@ == self.members@[self.visited as int],
    {
        lemma_resolve_shape(self.start@, self.members@, self.choices@, self.visited as nat);
        assert(views(self.others@).len() == self.others@.len());
        if self.visited < self.total {
            assert(views(self.others@)[0] == self.members@[self.visited as int]);
        }
    }

    /// Whether the meeting of the next member waits for the explorer's choice.
    pub open spec fn waiting(&self) -> bool {
        self.visited() < self.members().len() && needs_choice(
            self.active(),
            self.members()[self.visited() as int],
        )
    }

    /// Begins the encounter of `active` with the players of `others`.
    pub fn new(active: Player, others: Players) -> (r: Encounter)
        ensures
            r.wf(),
            r.start() == active@,
            r.members() == views(others@),
            r.visited() == 0,
    {
        let total = others.len();
        let r = Encounter {
            active,
            others,
            total,
            visited: 0,
            start: Ghost(active@),
            members: Ghost(views(others@)),
            choices: Ghost(Seq::empty()),
        };
        assert(views(r.others@) =~= r.members@.subrange(0, total as int) + Seq::<PlayerView>::empty());
        r
    }

    /// Whether every member has been visited.
    pub fn is_finished(&self) -> (r: bool)
        requires
            self.wf(),
        ensures
            r == (self.visited() == self.members().len()),
    {
        self.visited == self.total
    }

    /// Visits the member at the front of the queue with choice `c` and
    /// moves it to the back.
    fn step(&mut self, c: ShakeDownChoice)
        requires
            old(self).wf(),
            old(self).visited() < old(self).members().len(),
            choice_fits(old(self).active(), old(self).members()[old(self).visited() as int], c),
        ensures
            final(self).wf(),
            final(self).start() == old(self).start(),
            final(self).members() == old(self).members(),
            final(self).choices() == old(self).choices().push(c),
            final(self).visited() == old(self).visited() + 1,
    {
        let ghost v = self.visited as nat;
        let ghost old_choices = self.choices@;
        let ghost old_others = self.others@;
        let ghost prev = resolve(self.start@, self.members@, old_choices, v);
        proof {
            self.lemma_front();
        }
        let m = match self.others.pop_front() {
            Some(m) => m,
            None => {
                return ;
            },
        };
        let pos = self.active.pos();
        let m2 = if is_occupant(&m, &pos) {
            interact(&mut self.active, m, c)
        } else {
            m
        };
        self.others.push_back(m2);
        self.visited = self.visited + 1;
        self.choices = Ghost(old_choices.push(c));
        proof {
            let cs = self.choices@;
            lemma_resolve_prefix(self.start@, self.members@, old_choices, cs, v);
            assert forall|i: int| 0 <= i < v + 1 implies choice_fits(
                #[trigger] resolve(self.start@, self.members@, cs, i as nat).0,
                self.members@[i],
                cs[i],
            ) by {
                lemma_resolve_prefix(self.start@, self.members@, old_choices, cs, i as nat);
                if i < v {
                    assert(choice_fits(
                        resolve(self.start@, self.members@, old_choices, i as nat).0,
                        self.members@[i],
                        old_choices[i],
                    ));
                }
            }
            let ms = self.members@;
            let t = self.total as int;
            let n = old_others.len() as int;
            lemma_resolve_shape(self.start@, ms, old_choices, v);
            assert(n == t);
            assert(self.others@ == old_others.subrange(1, n).push(m2));
            lemma_views_rotate(old_others, m2);
            assert(views(old_others) == ms.subrange(v as int, t) + prev.1);
            assert(views(old_others).subrange(1, n) =~= ms.subrange(v + 1 as int, t) + prev.1);
            assert(views(self.others@) =~= ms.subrange(v + 1 as int, t) + prev.1.push(m2@));
        }
    }

    /// Rotates on through the queue: each member that stands elsewhere goes
    /// to the back as it is, each occupant after its meeting with the active
    /// player. Stops before a meeting that waits for the explorer's choice,
    /// or when every member has been visited.
    pub fn resume(&mut self) -> (r: Prompt)
        requires
            old(self).wf(),
        ensures
            final(self).wf(),
            final(self).start() == old(self).start(),
            final(self).members() == old(self).members(),
            old(self).visited() <= final(self).visited(),
            final(self).choices().subrange(0, old(self).visited() as int) == old(self).choices(),
            forall|i: int|
                old(self).visited() <= i < final(self).visited() ==> !needs_choice(
                    #[trigger] resolve(
                        final(self).start(),
                        final(self).members(),
                        final(self).choices(),
                        i as nat,
                    ).0,
                    final(self).members()[i],
                ),
            r == Prompt::Finished <==> final(self).visited() == final(self).members().len(),
            r == Prompt::Finished || final(self).waiting(),
            r matches Prompt::ShakeDown { gold, fake } ==> {
                let v = victim(final(self).active(), final(self).members()[final(self).visited() as int]);
                &&& gold == holds_any(v, ItemClass::GoldCoin)
                &&& fake == holds_any(v, ItemClass::FakeCoin)
            },
    {
        let ghost v0 = self.visited as int;
        let ghost c0 = self.choices@;
        while self.visited < self.total
            invariant
                self.wf(),
                self.start() == old(self).start(),
                self.members() == old(self).members(),
                v0 == old(self).visited(),
                c0 == old(self).choices(),
                v0 <= self.visited(),
                self.choices().subrange(0, v0) == c0,
                forall|i: int|
                    v0 <= i < self.visited() ==> !needs_choice(
                        #[trigger] resolve(self.start(), self.members(), self.choices(), i as nat).0,
                        self.members()[i],
                    ),
            decreases self.total - self.visited,
        {
            proof {
                self.lemma_front();
            }
            let offer = robbery_offer(&self.active, &self.others[0]);
            let pos = self.active.pos();
            if is_occupant(&self.others[0], &pos) {
                if let Some((gold, fake)) = offer {
                    return Prompt::ShakeDown { gold, fake };
                }
            }
            let ghost before = self.choices@;
            let ghost v = self.visited as nat;
            self.step(ShakeDownChoice::Everything);
            proof {
                let cs = self.choices@;
                assert forall|i: int| v0 <= i < self.visited() implies !needs_choice(
                    #[trigger] resolve(self.start(), self.members(), cs, i as nat).0,
                    self.members()[i],
                ) by {
                    lemma_resolve_prefix(self.start(), self.members(), before, cs, i as nat);
                }
                assert(cs.subrange(0, v0) =~= before.subrange(0, v0));
            }
        }
        Prompt::Finished
    }

    /// Supplies the explorer's choice to the meeting that waits for it, and
    /// moves that member to the back of the queue. A choice that cannot be
    /// asked of the explorer, or one given where no meeting waits, changes
    /// nothing and returns false: the caller asks again.
    pub fn answer(&mut self, c: ShakeDownChoice) -> (r: bool)
        requires
            old(self).wf(),
        ensures
            final(self).wf(),
            r == (old(self).waiting() && offered(
                victim(old(self).active(), old(self).members()[old(self).visited() as int]),
                c,
            )),
            r ==> {
                &&& final(self).start() == old(self).start()
                &&& final(self).members() == old(self).members()
                &&& final(self).choices() == old(self).choices().push(c)
                &&& final(self).visited() == old(self).visited() + 1
            },
            !r ==> *final(self) == *old(self),
    {
        if self.visited >= self.total {
            return false;
        }
        proof {
            self.lemma_front();
        }
        let pos = self.active.pos();
        if !is_occupant(&self.others[0], &pos) {
            return false;
        }
        let fits = match robbery_offer(&self.active, &self.others[0]) {
            Some((gold, fake)) => match c {
                ShakeDownChoice::Everything => true,
                ShakeDownChoice::GoldCoin => gold,
                ShakeDownChoice::FakeCoin => fake,
            },
            None => false,
        };
        if fits {
            self.step(c);
        }
        fits
    }

    /// Ends a finished encounter: the active player and the queue, as the
    /// members' meetings left them.
    pub fn finish(self) -> (r: (Player, Players))
        requires
            self.wf(),
            self.visited() == self.members().len(),
        ensures
            r.0@ == resolve(self.start(), self.members(), self.choices(), self.visited()).0,
            views(r.1@) == resolve(self.start(), self.members(), self.choices(), self.visited()).1,
    {
        proof {
            let ms = self.members@;
            assert(ms.subrange(self.total as int, self.total as int) =~= Seq::<PlayerView>::empty());
            let done = resolve(self.start@, ms, self.choices@, self.visited as nat);
            assert(Seq::<PlayerView>::empty() + done.1 =~= done.1);
        }
        (self.active, self.others)
    }
}

} // verus!

verus! {

/// Every member is visited exactly once, at its own turn: the queue after
/// the encounter holds as many players as before, and its `i`-th player is
/// the `i`-th member as its meeting with the active player left it (the
/// member itself, where the two did not interact), still of its kind and on
/// its cell.
pub proof fn lemma_each_member_visited_once(a: PlayerView, ms: Seq<PlayerView>, cs: Seq<ShakeDownChoice>)
    requires
        cs.len() == ms.len(),
    ensures
        resolve(a, ms, cs, ms.len()).1.len() == ms.len(),
        forall|i: int|
            0 <= i < ms.len() ==> #[trigger] resolve(a, ms, cs, ms.len()).1[i] == visit(
                resolve(a, ms, cs, i as nat).0,
                ms[i],
                cs[i],
            ).1,
        forall|i: int|
            0 <= i < ms.len() ==> (#[trigger] resolve(a, ms, cs, ms.len()).1[i]).kind == ms[i].kind
                && resolve(a, ms, cs, ms.len()).1[i].pos == ms[i].pos,
{
    lemma_order_kept(a, ms, cs, ms.len());
    assert forall|i: int| 0 <= i < ms.len() implies #[trigger] resolve(a, ms, cs, ms.len()).1[i]
        == visit(resolve(a, ms, cs, i as nat).0, ms[i], cs[i]).1 by {
        lemma_resolve_shape(a, ms, cs, i as nat);
        lemma_prefix_kept(a, ms, cs, (i + 1) as nat, ms.len());
        assert(resolve(a, ms, cs, ms.len()).1[i] == resolve(a, ms, cs, (i + 1) as nat).1[i]);
    }
}

/// The players visited in the first `k` turns keep their places while the
/// later members are visited.
pub proof fn lemma_prefix_kept(a: PlayerView, ms: Seq<PlayerView>, cs: Seq<ShakeDownChoice>, k: nat, n: nat)
    requires
        k <= n,
    ensures
        resolve(a, ms, cs, n).1.subrange(0, k as int) == resolve(a, ms, cs, k).1,
    decreases n - k,
{
    lemma_resolve_shape(a, ms, cs, n);
    lemma_resolve_shape(a, ms, cs, k);
    if k == n {
        assert(resolve(a, ms, cs, n).1.subrange(0, k as int) =~= resolve(a, ms, cs, k).1);
    } else {
        lemma_prefix_kept(a, ms, cs, k + 1, n);
        lemma_resolve_shape(a, ms, cs, k + 1);
        assert(resolve(a, ms, cs, n).1.subrange(0, k as int) =~= resolve(a, ms, cs, n).1.subrange(
            0,
            k + 1 as int,
        ).subrange(0, k as int));
        assert(resolve(a, ms, cs, k + 1).1.subrange(0, k as int) =~= resolve(a, ms, cs, k).1);
    }
}

/// One full rotation keeps the queue's order: the players after it stand in
/// the order of the members before it, each of the same kind and on the same
/// cell as the member in its place.
pub proof fn lemma_order_kept(a: PlayerView, ms: Seq<PlayerView>, cs: Seq<ShakeDownChoice>, n: nat)
    requires
        n <= ms.len(),
    ensures
        resolve(a, ms, cs, n).1.len() == n,
        forall|i: int|
            0 <= i < n ==> (#[trigger] resolve(a, ms, cs, n).1[i]).kind == ms[i].kind
                && resolve(a, ms, cs, n).1[i].pos == ms[i].pos,
    decreases n,
{
    lemma_resolve_shape(a, ms, cs, n);
    if n > 0 {
        lemma_order_kept(a, ms, cs, (n - 1) as nat);
        let prev = resolve(a, ms, cs, (n - 1) as nat);
        let out = resolve(a, ms, cs, n).1;
        assert forall|i: int| 0 <= i < n implies (#[trigger] out[i]).kind == ms[i].kind
            && out[i].pos == ms[i].pos by {
            if i < n - 1 {
                assert(out[i] == prev.1[i]);
            }
        }
    }
}

/// A member that stands on another cell than the active player leaves the
/// encounter exactly as it came.
pub proof fn lemma_non_occupants_unchanged(a: PlayerView, ms: Seq<PlayerView>, cs: Seq<ShakeDownChoice>)
    requires
        cs.len() == ms.len(),
    ensures
        forall|i: int|
            0 <= i < ms.len() && ms[i].pos != a.pos ==> #[trigger] resolve(a, ms, cs, ms.len()).1[i]
                == ms[i],
{
    lemma_each_member_visited_once(a, ms, cs);
    assert forall|i: int| 0 <= i < ms.len() && ms[i].pos != a.pos implies #[trigger] resolve(
        a,
        ms,
        cs,
        ms.len(),
    ).1[i] == ms[i] by {
        lemma_resolve_shape(a, ms, cs, i as nat);
    }
}

/// A gnome and an explorer on one cell come out of their meeting the same
/// whichever of them is active: the same choice is waited for, from the same
/// inventory, and the same items change hands.
pub proof fn lemma_dispatch_symmetry(g: PlayerView, e: PlayerView, c: ShakeDownChoice)
    requires
        g.kind == crate::players::PlayerKind::Gnome,
        e.kind == crate::players::PlayerKind::Explorer,
        g.pos == e.pos,
    ensures
        needs_choice(g, e) == needs_choice(e, g),
        victim(g, e) == victim(e, g),
        interaction(g, e, c) == (interaction(e, g, c).1, interaction(e, g, c).0),
        resolve(g, seq![e], seq![c], 1) == (
            resolve(e, seq![g], seq![c], 1).1[0],
            seq![resolve(e, seq![g], seq![c], 1).0],
        ),
{
    assert(resolve(g, seq![e], seq![c], 0).1.push(interaction(g, e, c).1) =~= seq![
        interaction(g, e, c).1,
    ]);
    assert(resolve(e, seq![g], seq![c], 0).1.push(interaction(e, g, c).1) =~= seq![
        interaction(e, g, c).1,
    ]);
}

} // verus!
