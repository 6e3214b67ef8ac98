//! Layout of the Xmonad window manager.

use vstd::prelude::*;

use crate::markup;
use crate::polybar_module::RenderablePolybarModule;
use crate::text;
use crate::theme::{Color, Palette};

verus! {

broadcast use crate::text::texts_push;

/// Whether the status pipe is open, and what was read from it since the last update.
pub struct XmonadModule {
    pub pipe_open: bool,
    pub pending_data: String,
}

#[derive(Debug, PartialEq, Eq)]
pub struct XmonadModuleState {
    pub layout: String,
}

/// What to do before reading the pipe.
#[derive(Clone, Copy, Debug, PartialEq, Eq, Structural)]
pub struct PipePlan {
    /// Seconds to wait.
    pub sleep_secs: u64,
    /// Whether the pipe is to be opened anew.
    pub open: bool,
}

impl XmonadModule {
    pub fn new() -> (r: Self)
        ensures
            !r.pipe_open,
            r.pending_data@ == Seq::<char>::empty(),
    {
        XmonadModule { pipe_open: false, pending_data: String::new() }
    }

    /// What to do before reading: the pipe is opened where it is not open, and after an error,
    /// which also calls for a second's wait.
    pub fn wait_update(&self, prev_state: Option<&Option<XmonadModuleState>>) -> (r: PipePlan)
        ensures
            ({
                let failed = prev_state matches Some(s) && s is None;
                &&& r.sleep_secs == if failed {
                    1u64
                } else {
                    0
                }
                &&& r.open == (!self.pipe_open || failed)
            }),
    {
        let failed = match prev_state {
            Some(s) => s.is_none(),
            None => false,
        };
        PipePlan {
            sleep_secs: if failed {
                1
            } else {
                0
            },
            open: !self.pipe_open || failed,
        }
    }

    /// Notes whether the pipe could be opened.
    pub fn opened(&mut self, success: bool)
        ensures
            final(self).pipe_open == success,
            final(self).pending_data == old(self).pending_data,
    {
        self.pipe_open = success;
    }

    /// Takes what was read from the pipe: true where there is something to show.
    pub fn receive(&mut self, data: &str) -> (r: bool)
        ensures
            final(self).pipe_open == old(self).pipe_open,
            final(self).pending_data@ == old(self).pending_data@ + data@,
            r == (final(self).pending_data@.len() > 0),
    {
        self.pending_data.append(data);
        !self.pending_data.as_str().is_empty()
    }

    /// State from what was read, which is used up; an error where the pipe is not open.
    pub fn update(&mut self) -> (r: Option<XmonadModuleState>)
        requires
            old(self).pipe_open ==> old(self).pending_data@.len() > 0,
        ensures
            final(self).pipe_open == old(self).pipe_open,
            match r {
                Some(s) => {
                    &&& old(self).pipe_open
                    &&& s.layout@ == old(self).pending_data@
                    &&& final(self).pending_data@ == Seq::<char>::empty()
                },
                None => !old(self).pipe_open && final(self).pending_data == old(self).pending_data,
            },
    {
        if !self.pipe_open {
            None
        } else {
            let layout = self.pending_data.clone();
            self.pending_data = String::new();
            Some(XmonadModuleState { layout })
        }
    }
}

/// The words of the layout, each cut to four bytes.
pub open spec fn short_words(layout: Seq<char>) -> Seq<Seq<char>> {
    let words = text::fields_of(layout, ' ');
    Seq::new(words.len(), |i: int| text::truncated(words[i], 4))
}

impl RenderablePolybarModule for XmonadModule {
    type State = Option<XmonadModuleState>;

    open spec fn renderable(&self, state: &Option<XmonadModuleState>) -> bool {
        match state {
            Some(s) => {
                let words = text::fields_of(s.layout@, ' ');
                forall|i: int|
                    0 <= i < words.len() ==> text::can_truncate(#[trigger] words[i], 4)
            },
            None => true,
        }
    }

    open spec fn rendered(&self, state: &Option<XmonadModuleState>) -> Seq<char> {
        match state {
            Some(s) => text::joined(short_words(s.layout@), " "@),
            None => markup::styled(
                Palette::SolarizedDark,
                "\u{e904}"@,
                Some(Color::Attention),
                None,
            ),
        }
    }

    #[verifier::loop_isolation(false)]
    fn can_render(&self, state: &Option<XmonadModuleState>) -> (r: bool) {
        match state {
            Some(s) => {
                let words = text::split(s.layout.as_str(), ' ');
                let ghost all = text::texts(words@);
                let mut i: usize = 0;
                while i < words.len()
                    invariant
                        i <= words.len(),
                        forall|j: int| 0 <= j < i ==> text::can_truncate(#[trigger] all[j], 4),
                    decreases words.len() - i,
                {
                    assert(all[i as int] == words[i as int]@);
                    if !text::truncates(words[i].as_str(), 4) {
                        return false;
                    }
                    i += 1;
                }
                true
            },
            None => true,
        }
    }

    #[verifier::loop_isolation(false)]
    fn render(&self, state: &Option<XmonadModuleState>) -> (r: String) {
        match state {
            Some(s) => {
                let words = text::split(s.layout.as_str(), ' ');
                let ghost all = text::texts(words@);
                let ghost target = short_words(s.layout@);
                let mut parts: Vec<String> = Vec::new();
                let mut i: usize = 0;
                assert(text::texts(parts@) =~= target.take(0));
                while i < words.len()
                    invariant
                        i <= words.len(),
                        text::texts(parts@) == target.take(i as int),
                    decreases words.len() - i,
                {
                    assert(all[i as int] == words[i as int]@);
                    parts.push(text::truncate(words[i].as_str(), 4));
                    i += 1;
                    assert(target.take(i as int) =~= target.take(i - 1).push(target[i - 1]));
                }
                assert(target.take(i as int) =~= target);
                text::join(&parts, " ")
            },
            None => markup::style(
                Palette::SolarizedDark,
                "\u{e904}",
                Some(Color::Attention),
                None,
            ),
        }
    }
}

/// Each word of the layout is shown, in its place, cut to its longest start of at most four bytes.
pub proof fn words_are_cut(layout: Seq<char>, i: int)
    requires
        0 <= i < text::fields_of(layout, ' ').len(),
    ensures
        ({
            let words = text::fields_of(layout, ' ');
            let short = short_words(layout);
            &&& short.len() == words.len()
            &&& text::has_prefix(words[i], short[i])
            &&& text::byte_len(short[i]) <= 4
            &&& text::byte_len(words[i]) <= 4 ==> short[i] == words[i]
            &&& short[i].len() < words[i].len() ==> text::byte_len(
                words[i].take(short[i].len() as int + 1),
            ) > 4
        }),
{
    let w = text::fields_of(layout, ' ')[i];
    let n = text::truncated(w, 4).len() as int;
    text::truncated_fits(w, 4);
    text::truncation_keeps_the_longest_start(w, 4, 0);
    text::truncation_keeps_the_longest_start(
        w,
        4,
        if n < w.len() {
            n + 1
        } else {
            n
        },
    );
}

}
