//! The data that each task command carries besides its command-line shape:
//! its heading level and the scripts of its code blocks.

use vstd::prelude::*;

verus! {

/// A code block of a task: the language written after the fence and the code.
#[derive(Debug)]
pub struct Script {
    /// The code at the beginning of a markdown code block.
    pub lang_code: String,
    /// The content of the code block.
    pub content: String,
}

/// The value of a `Script`.
#[verifier::ext_equal]
pub struct ScriptView {
    pub lang_code: Seq<char>,
    pub content: Seq<char>,
}

impl View for Script {
    type V = ScriptView;

    open spec fn view(&self) -> ScriptView {
        ScriptView { lang_code: self.lang_code@, content: self.content@ }
    }
}

/// The views of a sequence of scripts.
pub open spec fn script_views(s: Seq<Script>) -> Seq<ScriptView> {
    s.map_values(|x: Script| x@)
}

/// The heading level of a task and its scripts, in order.
#[derive(Debug)]
pub struct MaskData {
    pub level: i32,
    pub scripts: Vec<Script>,
}

/// The value of a `MaskData`.
#[verifier::ext_equal]
pub struct MaskView {
    pub level: i32,
    pub scripts: Seq<ScriptView>,
}

impl View for MaskData {
    type V = MaskView;

    open spec fn view(&self) -> MaskView {
        MaskView { level: self.level, scripts: script_views(self.scripts@) }
    }
}

/// The task data attached to a command.
#[derive(Debug)]
pub struct Mask(pub MaskData);

impl View for Mask {
    type V = MaskView;

    open spec fn view(&self) -> MaskView {
        self.0@
    }
}

impl Mask {
    /// Task data for a heading of the given level, with no script yet.
    pub fn new(level: i32) -> (m: Mask)
        ensures
            m@.level == level,
            m@.scripts == Seq::<ScriptView>::empty(),
    {
        let m = Mask(MaskData { level, scripts: Vec::new() });
        assert(m@.scripts =~= Seq::<ScriptView>::empty());
        m
    }

    /// The task data.
    pub fn data(&self) -> (d: &MaskData)
        ensures
            d@ == self@,
    {
        &self.0
    }

    /// Appends a script to the task.
    pub fn push_script(&mut self, script: Script)
        ensures
            final(self)@.level == old(self)@.level,
            final(self)@.scripts == old(self)@.scripts.push(script@),
    {
        self.0.scripts.push(script);
        assert(script_views(self.0.scripts@) =~= script_views(old(self).0.scripts@).push(script@));
    }
}

impl core::ops::Deref for Mask {
    type Target = MaskData;

    fn deref(&self) -> (d: &MaskData)
        ensures
            d@ == self@,
    {
        &self.0
    }
}

} // verus!
