//! Server that shows the progress of its clients.

use std::collections::BTreeMap;
use vstd::prelude::*;

use crate::markup;
use crate::markup::Markup;
use crate::polybar_module::RenderablePolybarModule;
use crate::theme::{Color, Palette, ICON_WARNING};

verus! {

broadcast use vstd::std_specs::btree::group_btree_axioms;

/// What an event of the poller calls for.
#[derive(Clone, Copy, Debug, PartialEq, Eq, Structural)]
pub enum SocketAction {
    /// Take a new client.
    Accept,
    /// Read from a client.
    Read(usize),
    /// Let a client go.
    Disconnect(usize),
    /// Nothing.
    Ignore,
}

/// The connected clients, the number of the next one, and the last progress of each client that
/// told any.
pub struct ProgressBarServerModule {
    pub clients: BTreeMap<usize, ()>,
    pub next_client_id: usize,
    pub cur_progress: BTreeMap<usize, u32>,
}

#[derive(Debug, PartialEq, Eq)]
pub struct ProgressBarServerModuleState {
    pub progress: Vec<u32>,
}

/// Whether the numbers increase.
pub open spec fn increasing(keys: Seq<usize>) -> bool {
    forall|i: int, j: int| 0 <= i < j < keys.len() ==> #[trigger] keys[i] < #[trigger] keys[j]
}

/// Whether a list holds the values of a map in the order of their keys.
pub open spec fn values_in_order(m: Map<usize, u32>, keys: Seq<usize>, values: Seq<u32>) -> bool {
    &&& increasing(keys)
    &&& keys.to_set() == m.dom()
    &&& values.len() == keys.len()
    &&& forall|i: int| 0 <= i < keys.len() ==> #[trigger] values[i] == m[keys[i]]
}

proof fn keys_increase(keys: Seq<usize>)
    requires
        vstd::std_specs::btree::increasing_seq(keys),
    ensures
        increasing(keys),
{
    broadcast use vstd::laws_cmp::group_laws_cmp;

    assert(vstd::laws_cmp::obeys_cmp::<usize>());
    vstd::std_specs::btree::axiom_increasing_seq_meaning(keys);
    assert forall|i: int, j: int| 0 <= i < j < keys.len() implies #[trigger] keys[i]
        < #[trigger] keys[j] by {
        assert(vstd::std_specs::cmp::OrdSpec::cmp_spec(&keys[i], &keys[j]) is Less);
    }
}

impl ProgressBarServerModule {
    /// Only connected clients have a progress, none above hundred, and no number is given twice.
    pub open spec fn wf(&self) -> bool {
        &&& self.next_client_id > 0
        &&& forall|k: usize|
            #[trigger] self.cur_progress@.contains_key(k) ==> self.clients@.contains_key(k)
                && self.cur_progress@[k] <= 100
        &&& forall|k: usize| #[trigger]
            self.clients@.contains_key(k) ==> 0 < k < self.next_client_id
    }

    pub fn new() -> (r: Self)
        ensures
            r.wf(),
            r.clients@ == Map::<usize, ()>::empty(),
            r.cur_progress@ == Map::<usize, u32>::empty(),
            r.next_client_id == 1,
    {
        ProgressBarServerModule {
            clients: BTreeMap::new(),
            next_client_id: 1,
            cur_progress: BTreeMap::new(),
        }
    }

    /// What an event of the poller calls for: token 0 is the server's, any other a client's.
    pub fn on_event(token: usize, readable: bool, read_closed: bool) -> (r: SocketAction)
        ensures
            r == if token == 0 {
                if readable {
                    SocketAction::Accept
                } else {
                    SocketAction::Ignore
                }
            } else if readable {
                SocketAction::Read(token)
            } else if read_closed {
                SocketAction::Disconnect(token)
            } else {
                SocketAction::Ignore
            },
    {
        if token == 0 {
            if readable {
                SocketAction::Accept
            } else {
                SocketAction::Ignore
            }
        } else if readable {
            SocketAction::Read(token)
        } else if read_closed {
            SocketAction::Disconnect(token)
        } else {
            SocketAction::Ignore
        }
    }

    /// The number for a new client.
    pub fn take_client_id(&mut self) -> (r: usize)
        requires
            old(self).wf(),
            old(self).next_client_id < usize::MAX,
        ensures
            final(self).wf(),
            r == old(self).next_client_id,
            final(self).next_client_id == r + 1,
            final(self).clients == old(self).clients,
            final(self).cur_progress == old(self).cur_progress,
            !old(self).clients@.contains_key(r),
    {
        let id: usize = self.next_client_id;
        self.next_client_id = id + 1;
        id
    }

    /// Adds a client under a number that was taken for it.
    pub fn add_client(&mut self, id: usize)
        requires
            old(self).wf(),
            0 < id < old(self).next_client_id,
        ensures
            final(self).wf(),
            final(self).clients@ == old(self).clients@.insert(id, ()),
            final(self).cur_progress == old(self).cur_progress,
            final(self).next_client_id == old(self).next_client_id,
    {
        self.clients.insert(id, ());
    }

    /// Takes the bytes read from a client: the last one is its progress, where it is one. True
    /// where there were none, which ends the connection.
    pub fn on_read(&mut self, id: usize, read: &[u8]) -> (r: bool)
        requires
            old(self).wf(),
            old(self).clients@.contains_key(id),
        ensures
            final(self).wf(),
            final(self).clients == old(self).clients,
            final(self).next_client_id == old(self).next_client_id,
            r == (read@.len() == 0),
            final(self).cur_progress@ == if read@.len() > 0 && read@.last() <= 100 {
                old(self).cur_progress@.insert(id, read@.last() as u32)
            } else {
                old(self).cur_progress@
            },
    {
        if read.len() > 0 {
            let progress: u32 = read[read.len() - 1] as u32;
            if progress <= 100 {
                self.cur_progress.insert(id, progress);
            }
            false
        } else {
            true
        }
    }

    /// Lets a client go, with its progress.
    pub fn remove_client(&mut self, id: usize)
        requires
            old(self).wf(),
        ensures
            final(self).wf(),
            final(self).clients@ == old(self).clients@.remove(id),
            final(self).cur_progress@ == old(self).cur_progress@.remove(id),
            final(self).next_client_id == old(self).next_client_id,
    {
        self.clients.remove(&id);
        self.cur_progress.remove(&id);
    }

    /// State to show: the progress of each client that told any, in the order in which they came.
    pub fn state(&self) -> (r: ProgressBarServerModuleState)
        requires
            self.wf(),
        ensures
            exists|keys: Seq<usize>| #[trigger]
                values_in_order(self.cur_progress@, keys, r.progress@),
            forall|i: int| 0 <= i < r.progress@.len() ==> #[trigger] r.progress@[i] <= 100,
    {
        let mut progress: Vec<u32> = Vec::new();
        let ghost mut keys: Seq<usize> = Seq::empty();
        for kv in it: self.cur_progress.iter()
            invariant
                progress@.len() == it.index(),
                keys.len() == it.index(),
                forall|i: int|
                    0 <= i < keys.len() ==> #[trigger] keys[i] == *it.seq()[i].0 && progress@[i]
                        == *it.seq()[i].1,
                vstd::std_specs::btree::increasing_seq(
                    it.seq().map_values(|kv: (&usize, &u32)| *kv.0),
                ),
                it.seq() == vstd::std_specs::iter::IteratorSpec::remaining(
                    &vstd::std_specs::btree::spec_btree_map_iter(&self.cur_progress),
                ),
        {
            progress.push(*kv.1);
            proof {
                keys = keys.push(*kv.0);
            }
        }
        let ghost all = vstd::std_specs::iter::IteratorSpec::remaining(
            &vstd::std_specs::btree::spec_btree_map_iter(&self.cur_progress),
        );
        proof {
            let m = self.cur_progress@;
            let ks = all.map_values(|kv: (&usize, &u32)| *kv.0);
            assert(keys =~= ks);
            keys_increase(keys);
            assert forall|k: usize| keys.to_set().contains(k) <==> m.dom().contains(k) by {
                if keys.to_set().contains(k) {
                    let i = choose|i: int| 0 <= i < keys.len() && keys[i] == k;
                    assert(m.contains_key(*all[i].0));
                }
                if m.dom().contains(k) {
                    assert(m.contains_key(k));
                    assert(all.contains((&k, &m[k])));
                    let i = choose|i: int| 0 <= i < all.len() && all[i] == (&k, &m[k]);
                    assert(keys[i] == k);
                }
            }
            assert(keys.to_set() =~= m.dom());
            assert forall|i: int| 0 <= i < keys.len() implies #[trigger] progress@[i]
                == m[keys[i]] by {
                assert(keys[i] == *all[i].0);
                assert(m[*all[i].0] == *all[i].1);
            }
            assert(values_in_order(m, keys, progress@));
            assert forall|i: int| 0 <= i < progress@.len() implies #[trigger] progress@[i]
                <= 100 by {
                assert(m.contains_key(*all[i].0));
                assert(progress@[i] == m[keys[i]]);
            }
        }
        let r = ProgressBarServerModuleState { progress };
        assert(values_in_order(self.cur_progress@, keys, r.progress@));
        r
    }
}

/// A client that was let go has no progress any more, and its number is not given again.
pub proof fn gone_clients_are_forgotten(
    before: ProgressBarServerModule,
    after: ProgressBarServerModule,
    id: usize,
)
    requires
        before.wf(),
        before.clients@.contains_key(id),
        after.wf(),
        after.clients@ == before.clients@.remove(id),
        after.cur_progress@ == before.cur_progress@.remove(id),
        after.next_client_id == before.next_client_id,
    ensures
        !after.cur_progress@.contains_key(id),
        after.next_client_id != id,
{
}

// Rendering

/// Step of the icon for a progress: none at the start, then eight of which the last is for the
/// end.
pub open spec fn progress_step(progress: u32) -> int {
    if progress == 0 {
        0
    } else {
        1 + (progress - 1) * 7 / 99
    }
}

pub open spec fn progress_icon(step: int) -> Seq<char> {
    if step == 0 {
        "\u{f251}"@
    } else if step == 1 {
        "\u{f0a9e}"@
    } else if step == 2 {
        "\u{f0a9f}"@
    } else if step == 3 {
        "\u{f0aa0}"@
    } else if step == 4 {
        "\u{f0aa1}"@
    } else if step == 5 {
        "\u{f0aa2}"@
    } else if step == 6 {
        "\u{f0aa3}"@
    } else if step == 7 {
        "\u{f0aa4}"@
    } else {
        "\u{f0aa5}"@
    }
}

pub open spec fn progress_text(progress: u32) -> Seq<char> {
    markup::colored(
        Palette::OkSolar,
        progress_icon(progress_step(progress)),
        Color::Foreground,
    )
}

/// The icon is full exactly at the end, and empty exactly at the start.
pub proof fn progress_ends(progress: u32)
    requires
        progress <= 100,
    ensures
        0 <= progress_step(progress) <= 8,
        progress_step(progress) == 8 <==> progress == 100,
        progress_step(progress) == 0 <==> progress == 0,
{
}

/// A higher progress never has a lower icon.
pub proof fn progress_grows(a: u32, b: u32)
    requires
        a <= b <= 100,
    ensures
        progress_step(a) <= progress_step(b),
{
}

pub open spec fn all_progress_text(progress: Seq<u32>) -> Seq<char>
    decreases progress.len(),
{
    if progress.len() == 0 {
        Seq::empty()
    } else {
        all_progress_text(progress.drop_last()) + progress_text(progress.last())
    }
}

impl ProgressBarServerModule {
    /// Icon for a progress.
    pub fn render_progress(progress: u32) -> (r: String)
        requires
            progress <= 100,
        ensures
            r@ == progress_text(progress),
    {
        let step: u32 = if progress == 0 {
            0
        } else {
            1 + (progress - 1) * 7 / 99
        };
        let icon = if step == 0 {
            "\u{f251}"
        } else if step == 1 {
            "\u{f0a9e}"
        } else if step == 2 {
            "\u{f0a9f}"
        } else if step == 3 {
            "\u{f0aa0}"
        } else if step == 4 {
            "\u{f0aa1}"
        } else if step == 5 {
            "\u{f0aa2}"
        } else if step == 6 {
            "\u{f0aa3}"
        } else if step == 7 {
            "\u{f0aa4}"
        } else {
            "\u{f0aa5}"
        };
        Markup::new(icon).fg(Color::Foreground).into_string()
    }
}

impl RenderablePolybarModule for ProgressBarServerModule {
    type State = Option<ProgressBarServerModuleState>;

    open spec fn renderable(&self, state: &Option<ProgressBarServerModuleState>) -> bool {
        match state {
            Some(s) => forall|i: int|
                0 <= i < s.progress@.len() ==> #[trigger] s.progress@[i] <= 100,
            None => true,
        }
    }

    open spec fn rendered(&self, state: &Option<ProgressBarServerModuleState>) -> Seq<char> {
        match state {
            Some(s) => if s.progress@.len() == 0 {
                Seq::empty()
            } else {
                markup::colored(Palette::OkSolar, "\u{ef8f}"@, Color::MainIcon) + " "@
                    + all_progress_text(s.progress@)
            },
            None => markup::colored(Palette::OkSolar, ICON_WARNING@, Color::Attention),
        }
    }

    #[verifier::loop_isolation(false)]
    fn can_render(&self, state: &Option<ProgressBarServerModuleState>) -> (r: bool) {
        match state {
            Some(s) => {
                let mut i: usize = 0;
                while i < s.progress.len()
                    invariant
                        i <= s.progress.len(),
                        forall|j: int| 0 <= j < i ==> #[trigger] s.progress@[j] <= 100,
                    decreases s.progress.len() - i,
                {
                    if s.progress[i] > 100 {
                        assert(!(s.progress@[i as int] <= 100));
                        return false;
                    }
                    i += 1;
                }
                true
            },
            None => true,
        }
    }

    #[verifier::loop_isolation(false)]
    fn render(&self, state: &Option<ProgressBarServerModuleState>) -> (r: String) {
        match state {
            Some(s) => {
                if s.progress.len() == 0 {
                    return String::new();
                }
                let mut r = Markup::new("\u{ef8f}").fg(Color::MainIcon).into_string();
                r.append(" ");
                let ghost head = r@;
                let mut i: usize = 0;
                assert(head + all_progress_text(s.progress@.take(0)) =~= head);
                while i < s.progress.len()
                    invariant
                        i <= s.progress.len(),
                        r@ == head + all_progress_text(s.progress@.take(i as int)),
                    decreases s.progress.len() - i,
                {
                    assert(s.progress@.take(i + 1).drop_last() =~= s.progress@.take(i as int));
                    let part = Self::render_progress(s.progress[i]);
                    r.append(part.as_str());
                    i += 1;
                    assert(r@ =~= head + all_progress_text(s.progress@.take(i as int)));
                }
                assert(s.progress@.take(i as int) =~= s.progress@);
                r
            },
            None => Markup::new(ICON_WARNING).fg(Color::Attention).into_string(),
        }
    }
}

/// The circles follow one another in the font, one for each step but the first.
pub proof fn circles_fill_up(step: int)
    requires
        0 <= step <= 8,
    ensures
        step == 0 ==> progress_icon(step) == "\u{f251}"@,
        step > 0 ==> progress_icon(step) == seq![(0xf0a9d + step) as char],
{
    reveal_strlit("\u{f0a9e}");
    reveal_strlit("\u{f0a9f}");
    reveal_strlit("\u{f0aa0}");
    reveal_strlit("\u{f0aa1}");
    reveal_strlit("\u{f0aa2}");
    reveal_strlit("\u{f0aa3}");
    reveal_strlit("\u{f0aa4}");
    reveal_strlit("\u{f0aa5}");
    assert(step > 0 ==> progress_icon(step) =~= seq![(0xf0a9d + step) as char]);
}

/// The steps between the start and the end are equal, up to the whole percent.
pub proof fn steps_are_equal(progress: u32)
    requires
        0 < progress <= 100,
    ensures
        99 * (progress_step(progress) - 1) <= 7 * (progress - 1) < 99 * progress_step(progress),
{
}

/// The progress of each client is shown on its own, one behind the other.
pub proof fn each_progress_is_shown(a: Seq<u32>, b: Seq<u32>, p: u32)
    ensures
        all_progress_text(a + b) == all_progress_text(a) + all_progress_text(b),
        all_progress_text(seq![p]) == progress_text(p),
    decreases b.len(),
{
    reveal_with_fuel(all_progress_text, 2);
    assert(seq![p].drop_last() =~= Seq::<u32>::empty());
    assert(all_progress_text(seq![p]) =~= progress_text(p));
    if b.len() == 0 {
        assert(a + b =~= a);
        assert(all_progress_text(a) + all_progress_text(b) =~= all_progress_text(a));
    } else {
        each_progress_is_shown(a, b.drop_last(), p);
        assert((a + b).drop_last() =~= a + b.drop_last());
        assert(all_progress_text(a + b) =~= all_progress_text(a) + all_progress_text(b));
    }
}

}
