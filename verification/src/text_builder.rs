//! Building layout programs command by command.

use crate::color::Rgba;
use crate::cp437::{encode, string_to_cp437, FontCharType};
use crate::layout::LayoutCommand;
use vstd::prelude::*;
use vstd::string::StringExecFns;

verus! {

/// A command of a layout program.
#[allow(inconsistent_fields)]
pub enum CommandType {
    Text { block: Vec<FontCharType> },
    Centered { block: Vec<FontCharType> },
    NewLine {  },
    Foreground { col: Rgba },
    Background { col: Rgba },
    TextWrapper { block: String },
    Reset {  },
}

impl View for CommandType {
    type V = LayoutCommand;

    open spec fn view(&self) -> LayoutCommand {
        match self {
            CommandType::Text { block } => LayoutCommand::AppendText { block: block@ },
            CommandType::Centered { block } => LayoutCommand::AppendCentered { block: block@ },
            CommandType::NewLine {  } => LayoutCommand::NewLine,
            CommandType::Foreground { col } => LayoutCommand::SetForeground { col: *col },
            CommandType::Background { col } => LayoutCommand::SetBackground { col: *col },
            CommandType::TextWrapper { block } => LayoutCommand::WordWrap { text: block@ },
            CommandType::Reset {  } => LayoutCommand::Reset,
        }
    }
}

/// A layout program under construction.
///
/// Its view is the sequence of the commands appended so far.
pub struct TextBuilder {
    commands: Vec<CommandType>,
}

impl View for TextBuilder {
    type V = Seq<LayoutCommand>;

    closed spec fn view(&self) -> Seq<LayoutCommand> {
        self.commands@.map_values(|command: CommandType| command@)
    }
}

impl TextBuilder {
    /// The program without commands.
    pub fn empty() -> (builder: TextBuilder)
        ensures
            builder@ == Seq::<LayoutCommand>::empty(),
    {
        let builder = TextBuilder { commands: Vec::new() };
        assert(builder@ == Seq::<LayoutCommand>::empty());
        builder
    }

    /// The commands appended so far.
    pub fn commands(&self) -> (commands: &Vec<CommandType>)
        ensures
            commands@.len() == self@.len(),
            forall|i: int| 0 <= i < commands@.len() ==> (#[trigger] commands@[i])@ == self@[i],
    {
        &self.commands
    }

    fn push(&mut self, command: CommandType)
        ensures
            final(self)@ == old(self)@.push(command@),
    {
        self.commands.push(command);
        assert(self@ == old(self)@.push(command@));
    }

    /// Appends the writing of `text` from the cursor on.
    pub fn append(&mut self, text: &str) -> (builder: &mut Self)
        ensures
            builder@ == old(self)@.push(LayoutCommand::AppendText { block: encode(text@) }),
            *final(self) == *final(builder),
    {
        let chrs = string_to_cp437(text);
        self.push(CommandType::Text { block: chrs });
        self
    }

    /// Appends the writing of `text` centered in the row of the cursor.
    pub fn centered(&mut self, text: &str) -> (builder: &mut Self)
        ensures
            builder@ == old(self)@.push(LayoutCommand::AppendCentered { block: encode(text@) }),
            *final(self) == *final(builder),
    {
        let chrs = string_to_cp437(text);
        self.push(CommandType::Centered { block: chrs });
        self
    }

    /// Appends the return to the top left corner and to white on black.
    pub fn reset(&mut self) -> (builder: &mut Self)
        ensures
            builder@ == old(self)@.push(LayoutCommand::Reset),
            *final(self) == *final(builder),
    {
        self.push(CommandType::Reset {  });
        self
    }

    /// Appends the move to the start of the next row.
    pub fn ln(&mut self) -> (builder: &mut Self)
        ensures
            builder@ == old(self)@.push(LayoutCommand::NewLine),
            *final(self) == *final(builder),
    {
        self.push(CommandType::NewLine {  });
        self
    }

    /// Appends the change of the foreground color to `col`.
    pub fn fg(&mut self, col: Rgba) -> (builder: &mut Self)
        ensures
            builder@ == old(self)@.push(LayoutCommand::SetForeground { col }),
            *final(self) == *final(builder),
    {
        self.push(CommandType::Foreground { col });
        self
    }

    /// Appends the change of the background color to `col`.
    pub fn bg(&mut self, col: Rgba) -> (builder: &mut Self)
        ensures
            builder@ == old(self)@.push(LayoutCommand::SetBackground { col }),
            *final(self) == *final(builder),
    {
        self.push(CommandType::Background { col });
        self
    }

    /// Appends the writing of `text` word by word, wrapped at the right edge.
    pub fn line_wrap(&mut self, text: &str) -> (builder: &mut Self)
        ensures
            builder@ == old(self)@.push(LayoutCommand::WordWrap { text: text@ }),
            *final(self) == *final(builder),
    {
        self.push(CommandType::TextWrapper { block: String::from_str(text) });
        self
    }
}

} // verus!
