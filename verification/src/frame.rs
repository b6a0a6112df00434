//! The frame loop's decisions.
//!
//! The loop itself belongs to the program: it polls the window for events
//! and calls the renderer. What it does when is decided here. At the start
//! of an iteration [`FrameState::begin_frame`] brings the pixel buffer to
//! the size of the window and says whether to render; every event that the
//! poll yields goes through [`FrameState::dispatch`]; the loop ends when
//! [`FrameState::is_done`] says so.
use vstd::prelude::*;

verus! {

/// A pixel: red, green, blue and alpha.
pub type Color = [u8; 4];

/// The pixel that new parts of the buffer are filled with: opaque black.
pub const BACKGROUND: Color = [0, 0, 0, 255];

/// What the name of an action asks of the frame loop.
#[derive(Clone, Copy, Debug, PartialEq, Eq, Structural)]
pub enum Action {
    /// `"key_info"`: the program reports the key that was pressed.
    KeyInfo,
    /// `"reload"`: the next iteration renders.
    Reload,
    /// `"quit"`: the loop ends.
    Quit,
    /// Any other name: nothing happens.
    Ignored,
}

impl Action {
    /// The action that `name` stands for.
    pub open spec fn of(name: Seq<char>) -> Action {
        if name == "key_info"@ {
            Action::KeyInfo
        } else if name == "reload"@ {
            Action::Reload
        } else if name == "quit"@ {
            Action::Quit
        } else {
            Action::Ignored
        }
    }

    /// The action that `name` stands for.
    pub fn from_name(name: &str) -> (action: Action)
        ensures
            action == Action::of(name@),
    {
        let name = name.to_owned();
        if name == "key_info".to_owned() {
            Action::KeyInfo
        } else if name == "reload".to_owned() {
            Action::Reload
        } else if name == "quit".to_owned() {
            Action::Quit
        } else {
            Action::Ignored
        }
    }
}

/// What the window reports to the frame loop.
#[derive(Clone, Debug, PartialEq, Eq)]
pub enum Event {
    /// The window is asked to close.
    CloseRequested,
    /// A key was pressed; the key bindings gave it these action names, in
    /// this order.
    Keyboard(Vec<String>),
    /// The window has a new size.
    Resized { width: u32, height: u32 },
    /// Anything else.
    Other,
}

/// The action names of `names`, as plain text.
pub open spec fn names_of(names: Seq<String>) -> Seq<Seq<char>> {
    Seq::new(names.len(), |i: int| names[i]@)
}

/// Whether one of `names` stands for `action`.
pub open spec fn asks(names: Seq<Seq<char>>, action: Action) -> bool {
    exists|i: int| 0 <= i < names.len() && #[trigger] Action::of(names[i]) == action
}

proof fn lemma_asks_push(names: Seq<Seq<char>>, name: Seq<char>, action: Action)
    ensures
        asks(names.push(name), action) == (asks(names, action) || Action::of(name) == action),
{
    let more = names.push(name);
    let last = names.len() as int;
    if asks(names, action) {
        let i = choose|i: int| 0 <= i < names.len() && #[trigger] Action::of(names[i]) == action;
        assert(Action::of(more[i]) == action);
    }
    if Action::of(name) == action {
        assert(Action::of(more[last]) == action);
    }
    if asks(more, action) {
        let i = choose|i: int| 0 <= i < more.len() && #[trigger] Action::of(more[i]) == action;
        if i < last {
            assert(Action::of(names[i]) == action);
        }
    }
}

/// `pixels` brought to length `len`: cut at the end, or filled up with
/// [`BACKGROUND`].
pub open spec fn resized_buffer(pixels: Seq<Color>, len: int) -> Seq<Color> {
    Seq::new(
        len as nat,
        |i: int|
            if i < pixels.len() {
                pixels[i]
            } else {
                BACKGROUND
            },
    )
}

/// Brings `buffer` to length `len`: cuts it at the end, or fills it up with
/// [`BACKGROUND`].
pub fn resize_buffer(buffer: &mut Vec<Color>, len: usize)
    ensures
        final(buffer)@ == resized_buffer(old(buffer)@, len as int),
{
    buffer.truncate(len);
    while buffer.len() < len
        invariant
            buffer.len() <= len,
            old(buffer)@.len() <= buffer.len() || buffer.len() == len,
            buffer@ == resized_buffer(old(buffer)@, buffer.len() as int),
        decreases len - buffer.len(),
    {
        buffer.push(BACKGROUND);
    }
}

/// The state of the frame loop.
#[derive(Clone, Copy, Debug, PartialEq, Eq, Structural)]
pub struct FrameState {
    /// The loop is to end.
    pub done: bool,
    /// What is shown is out of date.
    pub dirty: bool,
    /// The window has changed its size since the buffer was last fitted.
    pub resized: bool,
    /// The width of the window, in pixels.
    pub width: u32,
    /// The height of the window, in pixels.
    pub height: u32,
}

impl FrameState {
    /// The state after `action`.
    pub open spec fn after_action(self, action: Action) -> FrameState {
        match action {
            Action::Reload => FrameState { dirty: true, ..self },
            Action::Quit => FrameState { done: true, ..self },
            Action::KeyInfo | Action::Ignored => self,
        }
    }

    /// The state after the actions that `names` stand for: the loop is done
    /// if it was, or one of them asks to quit; the frame is dirty if it
    /// was, or one of them asks to reload.
    pub open spec fn after_actions(self, names: Seq<Seq<char>>) -> FrameState {
        FrameState {
            done: self.done || asks(names, Action::Quit),
            dirty: self.dirty || asks(names, Action::Reload),
            ..self
        }
    }

    /// One more action name at the end of `names` is one more action after
    /// the others.
    pub proof fn lemma_one_more_action(self, names: Seq<Seq<char>>, name: Seq<char>)
        ensures
            self.after_actions(names.push(name)) == self.after_actions(names).after_action(
                Action::of(name),
            ),
    {
        lemma_asks_push(names, name, Action::Quit);
        lemma_asks_push(names, name, Action::Reload);
    }

    /// The state after `event`.
    pub open spec fn after_event(self, event: Event) -> FrameState {
        match event {
            Event::CloseRequested => FrameState { done: true, ..self },
            Event::Keyboard(names) => self.after_actions(names_of(names@)),
            Event::Resized { width, height } => FrameState { width, height, resized: true, ..self },
            Event::Other => self,
        }
    }

    /// The state before the first iteration, for a window of the given
    /// size: the buffer is still to be fitted and the first frame still to
    /// be rendered.
    pub fn new(width: u32, height: u32) -> (state: Self)
        ensures
            state == (FrameState { done: false, dirty: true, resized: true, width, height }),
    {
        FrameState { done: false, dirty: true, resized: true, width, height }
    }

    /// Whether the loop is to end.
    pub fn is_done(&self) -> (done: bool)
        ensures
            done == self.done,
    {
        self.done
    }

    /// The number of pixels of the window.
    pub open spec fn pixels(self) -> int {
        self.width * self.height
    }

    /// Starts an iteration. Where the window has changed its size, the
    /// buffer is brought to the new size and the frame becomes dirty. The
    /// result says whether the frame was dirty, and so is to be rendered
    /// now; after the call it no longer is.
    pub fn begin_frame(&mut self, buffer: &mut Vec<Color>) -> (render: bool)
        requires
            old(self).resized ==> old(self).pixels() <= usize::MAX,
        ensures
            render == (old(self).resized || old(self).dirty),
            *final(self) == (FrameState { dirty: false, resized: false, ..*old(self) }),
            old(self).resized ==> final(buffer)@ == resized_buffer(old(buffer)@, old(self).pixels()),
            !old(self).resized ==> final(buffer)@ == old(buffer)@,
    {
        if self.resized {
            let len = (self.width as usize) * (self.height as usize);
            resize_buffer(buffer, len);
            self.dirty = true;
            self.resized = false;
        }
        let render = self.dirty;
        self.dirty = false;
        render
    }

    /// Takes `action` into account.
    pub fn apply(&mut self, action: Action)
        ensures
            *final(self) == old(self).after_action(action),
    {
        match action {
            Action::Reload => {
                self.dirty = true;
            },
            Action::Quit => {
                self.done = true;
            },
            Action::KeyInfo | Action::Ignored => {},
        }
    }

    /// Takes `event` into account.
    pub fn dispatch(&mut self, event: &Event)
        ensures
            *final(self) == old(self).after_event(*event),
    {
        match event {
            Event::CloseRequested => {
                self.done = true;
            },
            Event::Keyboard(names) => {
                let mut i: usize = 0;
                while i < names.len()
                    invariant
                        i <= names.len(),
                        *self == old(self).after_actions(names_of(names@).take(i as int)),
                    decreases names.len() - i,
                {
                    let action = Action::from_name(names[i].as_str());
                    self.apply(action);
                    proof {
                        let seen = names_of(names@).take(i as int);
                        assert(names_of(names@).take(i + 1) == seen.push(names@[i as int]@));
                        old(self).lemma_one_more_action(seen, names@[i as int]@);
                    }
                    i = i + 1;
                }
                assert(names_of(names@).take(names.len() as int) == names_of(names@));
            },
            Event::Resized { width, height } => {
                self.width = *width;
                self.height = *height;
                self.resized = true;
            },
            Event::Other => {},
        }
    }
}

} // verus!
