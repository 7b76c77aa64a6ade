//! The macro table: named shortcuts, each for an ordered list of commands.
//!
//! A name occurs once, and a table built from rows holds its names in upper
//! case. The entries keep the order in which their names first came in, which
//! is the order in which they are listed.

use vstd::prelude::*;
use crate::numeral::{digits, push_decimal};
use crate::text::{quoted, texts, to_upper, uppercase};

verus! {

/// One macro: its name, and its commands in the order in which they are sent.
#[derive(Debug, PartialEq, Eq)]
pub struct Macro {
    pub name: String,
    pub steps: Vec<String>,
}

/// A macro as the contracts see it.
pub struct MacroView {
    pub name: Seq<char>,
    pub steps: Seq<Seq<char>>,
}

impl View for Macro {
    type V = MacroView;

    open spec fn view(&self) -> MacroView {
        MacroView { name: self.name@, steps: texts(self.steps@) }
    }
}

/// Whether no name occurs twice.
pub open spec fn distinct_names(table: Seq<MacroView>) -> bool {
    forall|i: int, j: int|
        0 <= i < j < table.len() ==> (#[trigger] table[i]).name != (#[trigger] table[j]).name
}

/// Whether the table has an entry of that name.
pub open spec fn holds(table: Seq<MacroView>, name: Seq<char>) -> bool {
    exists|i: int| 0 <= i < table.len() && (#[trigger] table[i]).name == name
}

/// The place of the entry of that name, where the table has one.
pub open spec fn position(table: Seq<MacroView>, name: Seq<char>) -> int {
    choose|i: int| 0 <= i < table.len() && (#[trigger] table[i]).name == name
}

/// The table after `name` was given `steps`: an entry of that name keeps its
/// place and gets the new steps; a new name goes to the end.
pub open spec fn inserted(table: Seq<MacroView>, name: Seq<char>, steps: Seq<Seq<char>>) -> Seq<
    MacroView,
> {
    let entry = MacroView { name, steps };
    if holds(table, name) {
        table.update(position(table, name), entry)
    } else {
        table.push(entry)
    }
}

/// The entry that a typed name finds: the one whose name is the typed name in upper case.
pub open spec fn resolved(table: Seq<MacroView>, typed: Seq<char>) -> Option<MacroView> {
    if holds(table, uppercase(typed)) {
        Some(table[position(table, uppercase(typed))])
    } else {
        None
    }
}

/// What rows of strings hold, as texts.
pub open spec fn row_texts(rows: Seq<Vec<String>>) -> Seq<Seq<Seq<char>>> {
    rows.map_values(|row: Vec<String>| texts(row@))
}

/// Whether every row has a first element, the macro's name.
pub open spec fn all_named(rows: Seq<Seq<Seq<char>>>) -> bool {
    forall|i: int| 0 <= i < rows.len() ==> (#[trigger] rows[i]).len() > 0
}

/// The table that rows build, taken in order: the first element of a row, in
/// upper case, is the name, and the rest are its steps. A name that comes
/// again replaces the steps it had.
pub open spec fn table_of(rows: Seq<Seq<Seq<char>>>) -> Seq<MacroView>
    decreases rows.len(),
{
    if rows.len() == 0 {
        Seq::empty()
    } else {
        inserted(table_of(rows.drop_last()), uppercase(rows.last()[0]), rows.last().skip(1))
    }
}

/// The table that rows build; none where a row is empty, for want of a name.
pub open spec fn built_from(rows: Seq<Seq<Seq<char>>>) -> Option<Seq<MacroView>> {
    if all_named(rows) {
        Some(table_of(rows))
    } else {
        None
    }
}

/// The heading under which a macro is listed.
pub open spec fn heading(name: Seq<char>) -> Seq<char> {
    "Command: '"@ + name + "'"@
}

/// The line that lists a macro's step, numbered from one.
pub open spec fn step_line(number: nat, command: Seq<char>) -> Seq<char> {
    "  "@ + digits(number) + ". '"@ + command + "'"@
}

/// The lines that list one macro: its heading, then its steps in order.
pub open spec fn entry_listing(entry: MacroView) -> Seq<Seq<char>> {
    seq![heading(entry.name)] + Seq::new(
        entry.steps.len(),
        |i: int| step_line((i + 1) as nat, entry.steps[i]),
    )
}

/// The lines that list the whole table, entry by entry in the table's order.
pub open spec fn listing(table: Seq<MacroView>) -> Seq<Seq<char>>
    decreases table.len(),
{
    if table.len() == 0 {
        Seq::empty()
    } else {
        listing(table.drop_last()) + entry_listing(table.last())
    }
}

/// A table that may be missing, as the contracts see it.
pub open spec fn viewed(table: Option<MacroTable>) -> Option<Seq<MacroView>> {
    match table {
        Some(table) => Some(table@),
        None => None,
    }
}

/// The macro table.
pub struct MacroTable {
    entries: Vec<Macro>,
}

impl View for MacroTable {
    type V = Seq<MacroView>;

    closed spec fn view(&self) -> Seq<MacroView> {
        self.entries@.map_values(|m: Macro| m@)
    }
}

impl MacroTable {
    #[verifier::type_invariant]
    spec fn names_are_distinct(&self) -> bool {
        distinct_names(self.entries@.map_values(|m: Macro| m@))
    }

    /// A table without entries.
    pub fn new() -> (table: MacroTable)
        ensures
            table@ == Seq::<MacroView>::empty(),
            distinct_names(table@),
    {
        let table = MacroTable { entries: Vec::new() };
        assert(table@ =~= Seq::<MacroView>::empty());
        table
    }

    /// The number of entries. No name occurs twice among them.
    pub fn len(&self) -> (n: usize)
        ensures
            n == self@.len(),
            distinct_names(self@),
    {
        proof {
            use_type_invariant(self);
        }
        self.entries.len()
    }

    /// The entry at a place; none behind the last.
    pub fn get(&self, i: usize) -> (entry: Option<&Macro>)
        ensures
            match entry {
                Some(entry) => i < self@.len() && entry@ == self@[i as int],
                None => i >= self@.len(),
            },
    {
        if i < self.entries.len() {
            Some(&self.entries[i])
        } else {
            None
        }
    }

    /// Looks a name up as it stands, without changing its case.
    pub fn find(&self, name: &str) -> (place: Option<usize>)
        ensures
            match place {
                Some(i) => i < self@.len() && self@[i as int].name == name@ && i == position(
                    self@,
                    name@,
                ),
                None => !holds(self@, name@),
            },
    {
        proof {
            use_type_invariant(self);
        }
        let wanted = crate::text::owned(name);
        let mut i: usize = 0;
        while i < self.entries.len()
            invariant
                i <= self.entries.len(),
                wanted@ == name@,
                distinct_names(self@),
                forall|j: int| 0 <= j < i ==> (#[trigger] self@[j]).name != name@,
            decreases self.entries.len() - i,
        {
            if self.entries[i].name == wanted {
                proof {
                    assert(self@[i as int].name == name@);
                    let p = position(self@, name@);
                    if p < i {
                        assert(self@[p].name != self@[i as int].name);
                    } else if i < p {
                        assert(self@[i as int].name != self@[p].name);
                    }
                }
                return Some(i);
            }
            i += 1;
        }
        None
    }

    /// Gives `name` the steps `steps`. The name is taken as it stands.
    pub fn insert(self, name: String, steps: Vec<String>) -> (table: MacroTable)
        ensures
            table@ == inserted(self@, name@, texts(steps@)),
            distinct_names(table@),
    {
        proof {
            use_type_invariant(&self);
        }
        let place = self.find(name.as_str());
        let ghost before = self@;
        let ghost entry = MacroView { name: name@, steps: texts(steps@) };
        let mut entries = self.entries;
        match place {
            Some(i) => {
                entries.set(i, Macro { name, steps });
                assert(entries@.map_values(|m: Macro| m@) =~= before.update(i as int, entry));
            },
            None => {
                entries.push(Macro { name, steps });
                assert(entries@.map_values(|m: Macro| m@) =~= before.push(entry));
            },
        }
        let table = MacroTable { entries };
        table
    }

    /// Looks a name up without regard to case: the entry whose name is the
    /// upper-case form of what was typed.
    pub fn lookup(&self, typed: &str) -> (place: Option<usize>)
        ensures
            match place {
                Some(i) => i < self@.len() && resolved(self@, typed@) == Some(self@[i as int]),
                None => resolved(self@, typed@) is None,
            },
    {
        let upper = to_upper(typed);
        self.find(upper.as_str())
    }

    /// Builds the table from rows, each a macro's name followed by its steps.
    /// There is no table where a row is empty, for want of a name.
    pub fn from_rows(rows: &Vec<Vec<String>>) -> (built: Option<MacroTable>)
        ensures
            viewed(built) == built_from(row_texts(rows@)),
    {
        let ghost all = row_texts(rows@);
        let mut table = MacroTable::new();
        let mut i: usize = 0;
        assert(all.take(0) =~= Seq::<Seq<Seq<char>>>::empty());
        while i < rows.len()
            invariant
                i <= rows.len(),
                all == row_texts(rows@),
                all_named(all.take(i as int)),
                table@ == table_of(all.take(i as int)),
            decreases rows.len() - i,
        {
            let row = &rows[i];
            assert(all[i as int] == texts(row@));
            if row.len() == 0 {
                assert(all[i as int].len() == 0);
                return None;
            }
            let name = to_upper(row[0].as_str());
            let mut steps: Vec<String> = Vec::new();
            let mut k: usize = 1;
            assert(texts(steps@) =~= texts(row@).subrange(1, 1));
            while k < row.len()
                invariant
                    1 <= k <= row.len(),
                    texts(steps@) == texts(row@).subrange(1, k as int),
                decreases row.len() - k,
            {
                let ghost before = steps@;
                steps.push(row[k].clone());
                k += 1;
                assert(texts(steps@) =~= texts(before).push(row@[k - 1]@));
                assert(texts(steps@) =~= texts(row@).subrange(1, k as int));
            }
            assert(texts(row@).subrange(1, k as int) =~= all[i as int].skip(1));
            table = table.insert(name, steps);
            i += 1;
            proof {
                let upto = all.take(i as int);
                assert(upto.drop_last() =~= all.take(i - 1));
                assert(upto.last() == all[i - 1]);
                assert forall|j: int| 0 <= j < upto.len() implies (#[trigger] upto[j]).len()
                    > 0 by {
                    if j < i - 1 {
                        assert(upto[j] == all.take(i - 1)[j]);
                    }
                }
            }
        }
        assert(all.take(i as int) =~= all);
        Some(table)
    }

    /// The lines that list the table: for each macro a heading with its name,
    /// then its steps, numbered from one.
    pub fn listing(&self) -> (lines: Vec<String>)
        ensures
            texts(lines@) == listing(self@),
    {
        let mut lines: Vec<String> = Vec::new();
        let mut i: usize = 0;
        assert(self@.take(0) =~= Seq::<MacroView>::empty());
        while i < self.entries.len()
            invariant
                i <= self.entries.len(),
                texts(lines@) == listing(self@.take(i as int)),
            decreases self.entries.len() - i,
        {
            let entry = &self.entries[i];
            let ghost done = texts(lines@);
            let ghost view = entry@;
            assert(view == self@[i as int]);
            lines.push(quoted("Command: '", entry.name.as_str()));
            assert(texts(lines@) =~= done + seq![heading(view.name)]);
            let mut k: usize = 0;
            while k < entry.steps.len()
                invariant
                    k <= entry.steps.len(),
                    view == entry@,
                    texts(lines@) == done + seq![heading(view.name)] + Seq::new(
                        k as nat,
                        |j: int| step_line((j + 1) as nat, view.steps[j]),
                    ),
                decreases entry.steps.len() - k,
            {
                let ghost so_far = texts(lines@);
                let mut prefix = String::new();
                prefix.append("  ");
                push_decimal(&mut prefix, (k + 1) as u128);
                prefix.append(". '");
                let line = quoted(prefix.as_str(), entry.steps[k].as_str());
                assert(line@ =~= step_line((k + 1) as nat, view.steps[k as int]));
                lines.push(line);
                k += 1;
                assert(texts(lines@) =~= so_far.push(step_line(k as nat, view.steps[k - 1])));
                assert(texts(lines@) =~= done + seq![heading(view.name)] + Seq::new(
                    k as nat,
                    |j: int| step_line((j + 1) as nat, view.steps[j]),
                ));
            }
            i += 1;
            proof {
                let upto = self@.take(i as int);
                assert(upto.drop_last() =~= self@.take(i - 1));
                assert(upto.last() == view);
                assert(texts(lines@) =~= done + entry_listing(view));
            }
        }
        assert(self@.take(i as int) =~= self@);
        lines
    }
}

/// Names that differ only in case find the same entry.
pub proof fn lemma_lookup_ignores_case(table: Seq<MacroView>, a: Seq<char>, b: Seq<char>)
    requires
        uppercase(a) == uppercase(b),
    ensures
        resolved(table, a) == resolved(table, b),
{
}

/// Once a name is given steps, the table holds the name with these steps, and
/// every other name as before. No name comes to occur twice.
pub proof fn lemma_inserted(
    table: Seq<MacroView>,
    name: Seq<char>,
    steps: Seq<Seq<char>>,
    other: Seq<char>,
)
    requires
        distinct_names(table),
        other != name,
    ensures
        distinct_names(inserted(table, name, steps)),
        holds(inserted(table, name, steps), name),
        inserted(table, name, steps)[position(inserted(table, name, steps), name)].steps
            == steps,
        holds(inserted(table, name, steps), other) == holds(table, other),
        holds(table, other) ==> inserted(table, name, steps)[position(
            inserted(table, name, steps),
            other,
        )] == table[position(table, other)],
{
    let after = inserted(table, name, steps);
    let at = if holds(table, name) {
        position(table, name)
    } else {
        table.len() as int
    };
    assert(after[at].name == name && after[at].steps == steps);
    assert(after.len() >= table.len());
    assert forall|i: int| 0 <= i < after.len() && i != at implies #[trigger] after[i]
        == table[i] by {}
    assert forall|i: int, j: int| 0 <= i < j < after.len() implies (#[trigger] after[i]).name != (
    #[trigger] after[j]).name by {
        if i != at && j != at {
            assert(table[i].name != table[j].name);
        } else if holds(table, name) {
            if i == at {
                assert(table[i].name != table[j].name);
            } else {
                assert(table[i].name != table[j].name);
            }
        } else {
            assert(j == at);
            assert(table[i].name != name);
        }
    }
    let p = position(after, name);
    if p != at {
        if p < at {
            assert(after[p].name != after[at].name);
        } else {
            assert(after[at].name != after[p].name);
        }
    }
    if holds(table, other) {
        let q = position(table, other);
        assert(q != at);
        assert(after[q] == table[q]);
        let r = position(after, other);
        if r < q {
            assert(after[r].name != after[q].name);
        } else if q < r {
            assert(after[q].name != after[r].name);
        }
    }
    if holds(after, other) {
        let r = position(after, other);
        assert(r != at);
        assert(table[r].name == other);
    }
}

} // verus!
