//! Output behaviour around the finished transcript: clipboard/auto-paste
//! preferences and the remembered foreground application. The clipboard
//! and paste automation themselves are platform glue outside the library.
use vstd::prelude::*;

verus! {

/// Coarse state of the recorder, for the surrounding UI.
#[derive(Clone, Copy, Debug, PartialEq, Eq, Structural)]
pub enum SimpleRecState {
    Idle,
    Recording,
    Processing,
    PostProcessing,
    Busy,
}

/// How the finished transcript is delivered.
#[derive(Clone, Copy, Debug)]
pub struct BehaviorOptions {
    pub use_clipboard: bool,
    pub auto_paste: bool,
}

/// Delivery preferences plus the application that was frontmost before a
/// paste, so focus can be given back to it.
#[derive(Debug)]
pub struct OutputBehavior {
    pub behavior: BehaviorOptions,
    pub front_app_before_paste: Option<String>,
}

impl OutputBehavior {
    /// Fresh output behaviour with the given delivery preferences.
    pub fn new(behavior: BehaviorOptions) -> (r: Self)
        ensures
            r.behavior.use_clipboard == behavior.use_clipboard,
            r.behavior.auto_paste == behavior.auto_paste,
            r.front_app_before_paste is None,
    {
        OutputBehavior { behavior, front_app_before_paste: None }
    }

    /// Replace both delivery preferences.
    pub fn set_behavior_options(&mut self, use_clipboard: bool, auto_paste: bool)
        ensures
            final(self).behavior.use_clipboard == use_clipboard,
            final(self).behavior.auto_paste == auto_paste,
            final(self).front_app_before_paste == old(self).front_app_before_paste,
    {
        self.behavior = BehaviorOptions { use_clipboard, auto_paste };
    }

    /// Record which application is frontmost right now (as the platform
    /// glue reports it), so a later paste can hand focus back.
    pub fn remember_front_app(&mut self, current: Option<String>)
        ensures
            final(self).front_app_before_paste == current,
            final(self).behavior.use_clipboard == old(self).behavior.use_clipboard,
            final(self).behavior.auto_paste == old(self).behavior.auto_paste,
    {
        self.front_app_before_paste = current;
    }
}

} // verus!
