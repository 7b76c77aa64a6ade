//! The command dispatcher: it turns what the operator typed into the steps
//! that the session takes on the channel and on the console.
//!
//! The dispatcher performs none of the steps. It hands them out as a list of
//! [`Action`]s, in order, and its caller writes, waits, reads and prints.

use vstd::prelude::*;
use vstd::utf8::encode_utf8;
use crate::input_output::macro_table::{
    built_from, holds, listing, position, row_texts, viewed, MacroTable, MacroView,
};
use crate::input_output::read_serial::{ReadError, ReadSerial};
use crate::numeral::{parse_u64, parsed_u64};
use crate::text::{
    decode_bytes, decoded, final_token, fragments, last_token, owned, quoted, replace_char,
    replaced, shown_carriage_return, split_fragments, texts, to_upper, uppercase,
};

verus! {

/// The wait after a write, in milliseconds, before the reply is read.
pub const WRITE_SETTLE_MILLIS: u64 = 200;

/// The wait after a macro's step that names no time of its own, in milliseconds.
pub const STEP_PAUSE_MILLIS: u64 = 500;

/// The banner is shown again after this many inputs.
pub const BANNER_PERIOD: u8 = 5;

/// The number of lines that the input history keeps.
pub const MAX_HISTORY_LEN: usize = 255;

/// One step of a session, for the caller to perform.
#[derive(Debug, PartialEq, Eq)]
pub enum Action {
    /// Print the line on the console.
    Print(String),
    /// Write the bytes to the channel and flush it.
    Send(Vec<u8>),
    /// Wait that many milliseconds.
    Pause(u64),
    /// Read one line from the channel and show the reply.
    Receive,
}

/// A step as the contracts see it.
pub enum ActionView {
    Print(Seq<char>),
    Send(Seq<u8>),
    Pause(u64),
    Receive,
}

impl View for Action {
    type V = ActionView;

    open spec fn view(&self) -> ActionView {
        match self {
            Action::Print(line) => ActionView::Print(line@),
            Action::Send(bytes) => ActionView::Send(bytes@),
            Action::Pause(millis) => ActionView::Pause(*millis),
            Action::Receive => ActionView::Receive,
        }
    }
}

/// What a list of steps holds.
pub open spec fn steps_of(actions: Seq<Action>) -> Seq<ActionView> {
    actions.map_values(|a: Action| a@)
}

/// The bytes that go out for a command: its text in UTF-8, then one line feed.
pub open spec fn wire_bytes(command: Seq<char>) -> Seq<u8> {
    encode_utf8(command).push(0x0Au8)
}

/// The line that reports a command as sent.
pub open spec fn sent_line(command: Seq<char>) -> Seq<char> {
    "Tx: '"@ + command + "'"@
}

/// The line that reports a text as received.
pub open spec fn received_line(text: Seq<char>) -> Seq<char> {
    "Rx: '"@ + text + "'"@
}

/// The wait after a macro's step: half the number that its last token
/// writes, or the default where that token is no number.
pub open spec fn pause_for(command: Seq<char>) -> u64 {
    match parsed_u64(last_token(command)) {
        Some(millis) => millis / 2,
        None => STEP_PAUSE_MILLIS,
    }
}

/// One exchange with the device: report the command, send it, let the device
/// begin its reply, read it.
pub open spec fn exchange(command: Seq<char>) -> Seq<ActionView> {
    seq![
        ActionView::Print(sent_line(command)),
        ActionView::Send(wire_bytes(command)),
        ActionView::Pause(WRITE_SETTLE_MILLIS),
        ActionView::Receive,
    ]
}

/// A macro's run: for each step in order an exchange, then that step's wait.
pub open spec fn macro_run(steps: Seq<Seq<char>>) -> Seq<ActionView>
    decreases steps.len(),
{
    if steps.len() == 0 {
        Seq::empty()
    } else {
        macro_run(steps.drop_last()) + exchange(steps.last()).push(
            ActionView::Pause(pause_for(steps.last())),
        )
    }
}

/// Lines to print, one step each.
pub open spec fn prints(lines: Seq<Seq<char>>) -> Seq<ActionView> {
    lines.map_values(|line: Seq<char>| ActionView::Print(line))
}

/// Whether an input, in upper case, asks for the list of macros.
pub open spec fn is_introspection(upper: Seq<char>) -> bool {
    upper == "SHOW ALL COMMANDS"@ || upper == "HELP"@
}

/// What the session does for one input, given the input in upper case and as
/// it was typed. In this order: a request for the list prints the list and
/// leaves the channel alone; a macro's name runs the macro; anything else goes
/// out as it was typed.
pub open spec fn plan(upper: Seq<char>, typed: Seq<char>, table: Seq<MacroView>) -> Seq<
    ActionView,
> {
    if is_introspection(upper) {
        prints(listing(table))
    } else if holds(table, upper) {
        macro_run(table[position(table, upper)].steps)
    } else {
        exchange(typed)
    }
}

/// Whether a step touches the channel.
pub open spec fn touches_channel(action: ActionView) -> bool {
    !(action is Print)
}

/// A request for the list of macros never touches the channel: every step
/// that it leads to prints a line.
pub proof fn lemma_introspection_is_quiet(
    upper: Seq<char>,
    typed: Seq<char>,
    table: Seq<MacroView>,
)
    requires
        is_introspection(upper),
    ensures
        forall|i: int|
            0 <= i < plan(upper, typed, table).len() ==> !touches_channel(
                #[trigger] plan(upper, typed, table)[i],
            ),
{
}

/// A macro's run takes its commands in order, five steps for each: the four
/// of the exchange, then the wait that the command asks for.
pub proof fn lemma_macro_run_layout(steps: Seq<Seq<char>>, i: int)
    requires
        0 <= i < steps.len(),
    ensures
        macro_run(steps).len() == 5 * steps.len(),
        macro_run(steps).subrange(5 * i, 5 * i + 4) == exchange(steps[i]),
        macro_run(steps)[5 * i + 4] == ActionView::Pause(pause_for(steps[i])),
    decreases steps.len(),
{
    let head = macro_run(steps.drop_last());
    let tail = exchange(steps.last()).push(ActionView::Pause(pause_for(steps.last())));
    assert(tail.len() == 5);
    if steps.len() > 1 {
        lemma_macro_run_layout(steps.drop_last(), if i < steps.len() - 1 { i } else { 0 });
    } else {
        assert(head.len() == 0);
    }
    assert(head.len() == 5 * (steps.len() - 1));
    if i < steps.len() - 1 {
        assert(steps.drop_last()[i] == steps[i]);
        assert(macro_run(steps).subrange(5 * i, 5 * i + 4) =~= head.subrange(5 * i, 5 * i + 4));
        assert(macro_run(steps)[5 * i + 4] == head[5 * i + 4]);
    } else {
        assert(macro_run(steps).subrange(5 * i, 5 * i + 4) =~= exchange(steps.last()));
        assert(macro_run(steps)[5 * i + 4] == tail[4]);
    }
}

/// The lines that show a reply: the line's carriage returns written out, the
/// line cut at its line feeds, and each piece that is not empty reported as
/// received. A failed read shows nothing.
pub open spec fn reply_lines(outcome: Result<Seq<char>, ReadError>) -> Seq<Seq<char>> {
    match outcome {
        Ok(line) => fragments(replaced(line, '\r', shown_carriage_return()), '\n').map_values(
            |piece: Seq<char>| received_line(piece),
        ),
        Err(_) => Seq::empty(),
    }
}

/// What the line editor came back with.
#[derive(Debug, PartialEq, Eq)]
pub enum Readline {
    /// The operator entered a line.
    Line(String),
    /// The operator interrupted the session.
    Interrupted,
    /// The input has come to its end.
    Eof,
}

/// The rotating count that brings the banner back.
pub struct Session {
    count: u8,
}

impl Session {
    #[verifier::type_invariant]
    spec fn count_in_period(&self) -> bool {
        self.count < BANNER_PERIOD
    }

    /// The number of inputs since the banner was last due.
    pub closed spec fn count(&self) -> nat {
        self.count as nat
    }

    /// A session at its start: the banner is due.
    pub fn new() -> (session: Session)
        ensures
            session.count() == 0,
    {
        Session { count: 0 }
    }

    /// Counts one input and says whether the banner is due before it.
    pub fn banner_due(&mut self) -> (due: bool)
        ensures
            due == (old(self).count() == 0),
            final(self).count() == (old(self).count() + 1) % (BANNER_PERIOD as nat),
            final(self).count() < BANNER_PERIOD,
    {
        proof {
            use_type_invariant(&*self);
        }
        let due = self.count == 0;
        self.count = (self.count + 1) % BANNER_PERIOD;
        due
    }

    /// Counts one input and hands out the banner's lines where it is due.
    pub fn banner(&mut self) -> (lines: Vec<String>)
        ensures
            final(self).count() == (old(self).count() + 1) % (BANNER_PERIOD as nat),
            texts(lines@) == if old(self).count() == 0 {
                seq![
                    "\n--- Press Ctrl + C to end the session ---"@,
                    "--- Type in `SHOW ALL COMMANDS` for all custom commands ---"@,
                ]
            } else {
                Seq::empty()
            },
    {
        let mut lines: Vec<String> = Vec::new();
        if self.banner_due() {
            lines.push(owned("\n--- Press Ctrl + C to end the session ---"));
            lines.push(owned("--- Type in `SHOW ALL COMMANDS` for all custom commands ---"));
            assert(texts(lines@) =~= seq![
                "\n--- Press Ctrl + C to end the session ---"@,
                "--- Type in `SHOW ALL COMMANDS` for all custom commands ---"@,
            ]);
        } else {
            assert(texts(lines@) =~= Seq::<Seq<char>>::empty());
        }
        lines
    }
}

/// The wait after a macro's step, in milliseconds.
pub fn step_pause(command: &str) -> (millis: u64)
    ensures
        millis == pause_for(command@),
{
    let token = final_token(command);
    match parse_u64(token.as_str()) {
        Some(value) => value / 2,
        None => STEP_PAUSE_MILLIS,
    }
}

/// Adds one exchange with the device to a list of steps.
pub fn push_exchange(actions: &mut Vec<Action>, command: &str)
    ensures
        steps_of(final(actions)@) == steps_of(old(actions)@) + exchange(command@),
{
    let ghost before = steps_of(actions@);
    let mut bytes = command.as_bytes_vec();
    bytes.push(0x0Au8);
    actions.push(Action::Print(quoted("Tx: '", command)));
    actions.push(Action::Send(bytes));
    actions.push(Action::Pause(WRITE_SETTLE_MILLIS));
    actions.push(Action::Receive);
    assert(steps_of(actions@) =~= before + exchange(command@));
}

/// The interactive session's dispatcher, with the configuration it was made for.
#[derive(Debug, Clone, Copy, PartialEq, Eq)]
pub struct WriteSerial<'a> {
    /// The configuration file that names the port to talk to.
    pub config_file_name: &'a str,
    /// The framer that reads every reply.
    pub read_serial: ReadSerial<'a>,
    /// The file that keeps the input history.
    pub history_path: &'a str,
    /// The number of lines that the input history keeps.
    pub max_history_len: usize,
}

impl<'a> WriteSerial<'a> {
    /// A dispatcher that reads replies with `read_serial`.
    pub fn new(config_file_name: &'a str, read_serial: ReadSerial<'a>) -> (dispatcher: WriteSerial<
        'a,
    >)
        ensures
            dispatcher.config_file_name == config_file_name,
            dispatcher.read_serial == read_serial,
            dispatcher.history_path@ == "history.txt"@,
            dispatcher.max_history_len == MAX_HISTORY_LEN,
    {
        WriteSerial {
            config_file_name,
            read_serial,
            history_path: "history.txt",
            max_history_len: MAX_HISTORY_LEN,
        }
    }

    /// The steps for one line of input. The input is classified in upper case
    /// and sent as it was typed.
    pub fn execute(&self, typed: &str, table: &MacroTable) -> (actions: Vec<Action>)
        ensures
            steps_of(actions@) == plan(uppercase(typed@), typed@, table@),
    {
        let upper = to_upper(typed);
        self.dispatch(upper.as_str(), typed, table)
    }

    /// The steps for one line of input, given also in upper case.
    pub fn dispatch(&self, upper: &str, typed: &str, table: &MacroTable) -> (actions: Vec<Action>)
        ensures
            steps_of(actions@) == plan(upper@, typed@, table@),
    {
        let key = owned(upper);
        if key == owned("SHOW ALL COMMANDS") || key == owned("HELP") {
            self.handle_show_all_command(table)
        } else {
            match table.find(upper) {
                Some(_) => self.handle_custom_commands(table, upper),
                None => self.write_and_read(typed),
            }
        }
    }

    /// What follows from the line editor's answer: the line to dispatch, or
    /// the notice with which the session ends.
    pub fn get_input(&self, read: Readline) -> (input: Result<String, String>)
        ensures
            match read {
                Readline::Line(line) => input == Ok::<String, String>(line),
                Readline::Interrupted => input is Err && input->Err_0@
                    == "CTRL + C detected. Exiting..."@,
                Readline::Eof => input is Err && input->Err_0@ == "CTRL +D detected"@,
            },
    {
        match read {
            Readline::Line(line) => Ok(line),
            Readline::Interrupted => Err(owned("CTRL + C detected. Exiting...")),
            Readline::Eof => Err(owned("CTRL +D detected")),
        }
    }

    /// The notice for a history file that cannot be loaded yet.
    pub fn history_notice(&self) -> (notice: String)
        ensures
            notice@ == "No previous history yet. Will create history at: '"@ + self.history_path@
                + "'"@,
    {
        quoted("No previous history yet. Will create history at: '", self.history_path)
    }

    /// The steps of one exchange with the device.
    pub fn write_and_read(&self, command: &str) -> (actions: Vec<Action>)
        ensures
            steps_of(actions@) == exchange(command@),
    {
        let mut actions: Vec<Action> = Vec::new();
        push_exchange(&mut actions, command);
        assert(steps_of(actions@) =~= exchange(command@));
        actions
    }

    /// The bytes that go out for a command.
    pub fn write_str(&self, command: &str) -> (bytes: Vec<u8>)
        ensures
            bytes@ == wire_bytes(command@),
    {
        let mut bytes = command.as_bytes_vec();
        bytes.push(0x0Au8);
        bytes
    }

    /// The lines that show a reply.
    pub fn print_read_results(&self, outcome: &Result<String, ReadError>) -> (lines: Vec<String>)
        ensures
            texts(lines@) == reply_lines(
                match outcome {
                    Ok(line) => Ok(line@),
                    Err(e) => Err(*e),
                },
            ),
    {
        let mut lines: Vec<String> = Vec::new();
        match outcome {
            Ok(line) => {
                proof {
                    reveal_strlit("\\r");
                    assert("\\r"@ =~= shown_carriage_return());
                }
                let shown = replace_char(line.as_str(), '\r', "\\r");
                let pieces = split_fragments(shown.as_str(), '\n');
                let mut i: usize = 0;
                while i < pieces.len()
                    invariant
                        i <= pieces.len(),
                        texts(lines@) == texts(pieces@).take(i as int).map_values(
                            |piece: Seq<char>| received_line(piece),
                        ),
                    decreases pieces.len() - i,
                {
                    let ghost before = texts(lines@);
                    lines.push(quoted("Rx: '", pieces[i].as_str()));
                    i += 1;
                    assert(texts(lines@) =~= before.push(received_line(pieces@[i - 1]@)));
                    assert(texts(lines@) =~= texts(pieces@).take(i as int).map_values(
                        |piece: Seq<char>| received_line(piece),
                    ));
                }
                assert(texts(pieces@).take(i as int) =~= texts(pieces@));
            },
            Err(_) => {
                assert(texts(lines@) =~= Seq::<Seq<char>>::empty());
            },
        }
        lines
    }

    /// The line that shows bytes as they came, one character for each byte.
    pub fn print_buffer(&self, buf: &[u8]) -> (line: String)
        ensures
            line@ == received_line(decoded(buf@)),
    {
        let text = decode_bytes(buf);
        quoted("Rx: '", text.as_str())
    }

    /// The macro table for a session: empty where no macro file was named,
    /// else built from the file's rows.
    pub fn get_custom_commands(&self, rows: Option<&Vec<Vec<String>>>) -> (built: Option<
        MacroTable,
    >)
        ensures
            viewed(built) == match rows {
                None => Some(Seq::<MacroView>::empty()),
                Some(rows) => built_from(row_texts(rows@)),
            },
    {
        match rows {
            None => Some(MacroTable::new()),
            Some(rows) => MacroTable::from_rows(rows),
        }
    }

    /// The steps that list every macro: lines to print, and nothing for the channel.
    pub fn handle_show_all_command(&self, table: &MacroTable) -> (actions: Vec<Action>)
        ensures
            steps_of(actions@) == prints(listing(table@)),
            forall|i: int| 0 <= i < actions@.len() ==> !touches_channel(#[trigger] actions@[i]@),
    {
        let lines = table.listing();
        let ghost all = texts(lines@);
        let mut actions: Vec<Action> = Vec::new();
        let mut i: usize = 0;
        while i < lines.len()
            invariant
                i <= lines.len(),
                all == texts(lines@),
                steps_of(actions@) == prints(all.take(i as int)),
            decreases lines.len() - i,
        {
            let ghost before = steps_of(actions@);
            actions.push(Action::Print(lines[i].clone()));
            i += 1;
            assert(steps_of(actions@) =~= before.push(ActionView::Print(all[i - 1])));
            assert(steps_of(actions@) =~= prints(all.take(i as int)));
        }
        assert(all.take(i as int) =~= all);
        assert forall|k: int| 0 <= k < actions@.len() implies !touches_channel(
            #[trigger] actions@[k]@,
        ) by {
            assert(steps_of(actions@)[k] == actions@[k]@);
        }
        actions
    }

    /// The steps that run the macro of that name; none where there is no such macro.
    pub fn handle_custom_commands(&self, table: &MacroTable, upper: &str) -> (actions: Vec<Action>)
        ensures
            steps_of(actions@) == if holds(table@, upper@) {
                macro_run(table@[position(table@, upper@)].steps)
            } else {
                Seq::empty()
            },
    {
        let mut actions: Vec<Action> = Vec::new();
        assert(steps_of(actions@) =~= Seq::<ActionView>::empty());
        let place = match table.find(upper) {
            Some(place) => place,
            None => {
                return actions;
            },
        };
        let entry = match table.get(place) {
            Some(entry) => entry,
            None => {
                return actions;
            },
        };
        let ghost steps = entry@.steps;
        let mut i: usize = 0;
        assert(steps.take(0) =~= Seq::<Seq<char>>::empty());
        while i < entry.steps.len()
            invariant
                i <= entry.steps.len(),
                steps == entry@.steps,
                steps_of(actions@) == macro_run(steps.take(i as int)),
            decreases entry.steps.len() - i,
        {
            let command = entry.steps[i].as_str();
            let ghost before = steps_of(actions@);
            push_exchange(&mut actions, command);
            let ghost mid = steps_of(actions@);
            actions.push(Action::Pause(step_pause(command)));
            i += 1;
            proof {
                let upto = steps.take(i as int);
                assert(upto.drop_last() =~= steps.take(i - 1));
                assert(upto.last() == command@);
                assert(steps_of(actions@) =~= mid.push(ActionView::Pause(pause_for(command@))));
                assert(steps_of(actions@) =~= before + exchange(command@).push(
                    ActionView::Pause(pause_for(command@)),
                ));
            }
        }
        assert(steps.take(i as int) =~= steps);
        actions
    }
}

} // verus!
