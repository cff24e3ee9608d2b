//! The list of tools that the user keeps, and the text in which it is stored.
//!
//! The list lives in memory as a `Database`. Its stored form is plain text,
//! one name to a line. Reading and writing the file is the caller's part: the
//! caller hands `Database::new` the text that it read, and writes the text that
//! `Database::save` gives.

use crate::text::{
    chars_of, lemma_lines_nonempty, lemma_lines_of_concat, lemma_lines_of_single_line, line_bounds,
    lines, single_line, string_of_range,
};
use crate::tool::Tool;
use vstd::prelude::*;

verus! {

/// What state the stored list was in before this run of the program.
#[derive(Clone, Copy, Debug, PartialEq, Eq, Structural)]
pub enum DatabaseStatus {
    /// It was there, and may hold tools.
    Existed,
    /// It has just been made, and holds nothing.
    Fresh,
}

/// The tools that the user keeps, in the order in which they were added.
pub struct Database {
    tools: Vec<Tool>,
}

/// The names of `tools`, in order.
pub open spec fn names(tools: Seq<Tool>) -> Seq<Seq<char>> {
    Seq::new(tools.len(), |i: int| tools[i]@)
}

/// `line` without the carriage return at its end, if it has one.
pub open spec fn without_carriage_return(line: Seq<char>) -> Seq<char> {
    if line.len() > 0 && line.last() == '\r' {
        line.drop_last()
    } else {
        line
    }
}

/// The names in a stored text: every line that a newline ends, without the
/// carriage return that may stand before that newline; and what follows the
/// last newline, unless that is empty.
pub open spec fn stored_names(text: Seq<char>) -> Seq<Seq<char>> {
    let ls = lines(text);
    let ended = ls.drop_last().map_values(|line: Seq<char>| without_carriage_return(line));
    if ls.last().len() > 0 {
        ended.push(ls.last())
    } else {
        ended
    }
}

/// The stored text of a list of names: each name, with a newline after it.
pub open spec fn stored_text(names: Seq<Seq<char>>) -> Seq<char>
    decreases names.len(),
{
    if names.len() == 0 {
        Seq::empty()
    } else {
        stored_text(names.drop_last()) + names.last() + seq!['\n']
    }
}

/// Whether `name` comes back from the stored text as it went in: it holds no
/// newline and does not end in a carriage return.
pub open spec fn storable(name: Seq<char>) -> bool {
    single_line(name) && without_carriage_return(name) == name
}

/// The lines of a stored text with one more line after it are the names it
/// was made of, then that line.
proof fn lemma_lines_of_stored_text(names: Seq<Seq<char>>, more: Seq<char>)
    requires
        forall|i: int| 0 <= i < names.len() ==> single_line(#[trigger] names[i]),
        single_line(more),
    ensures
        lines(stored_text(names) + more) == names.push(more),
    decreases names.len(),
{
    lemma_lines_of_single_line(more);
    if names.len() == 0 {
        assert(stored_text(names) + more =~= more);
        assert(seq![more] =~= names.push(more));
    } else {
        let init = names.drop_last();
        let head = stored_text(init) + names.last();
        assert forall|i: int| 0 <= i < init.len() implies single_line(#[trigger] init[i]) by {
            assert(init[i] == names[i]);
        }
        lemma_lines_of_stored_text(init, names.last());
        assert(stored_text(names) + more =~= head + seq!['\n'] + more);
        lemma_lines_of_concat(head, more);
        assert(init.push(names.last()) + seq![more] =~= names.push(more));
    }
}

/// What is stored is what is read back: the names in the stored text of a
/// list are that list, where every name of it is storable.
pub proof fn lemma_stored_names_of_stored_text(names: Seq<Seq<char>>)
    requires
        forall|i: int| 0 <= i < names.len() ==> storable(#[trigger] names[i]),
    ensures
        stored_names(stored_text(names)) == names,
{
    let text = stored_text(names);
    let nothing = Seq::<char>::empty();
    lemma_lines_of_stored_text(names, nothing);
    assert(text + nothing =~= text);
    let ls = lines(text);
    assert(ls.drop_last() =~= names);
    assert(names.map_values(|line: Seq<char>| without_carriage_return(line)) =~= names);
}

impl View for Database {
    type V = Seq<Seq<char>>;

    /// The names of the tools, in order.
    closed spec fn view(&self) -> Seq<Seq<char>> {
        names(self.tools@)
    }
}

impl Database {
    /// The list as it was stored: the names in `stored`, in order, where the
    /// stored list existed; an empty list where it is fresh, whatever
    /// `stored` holds.
    pub fn new(status: DatabaseStatus, stored: &str) -> (db: Database)
        ensures
            db@ == match status {
                DatabaseStatus::Existed => stored_names(stored@),
                DatabaseStatus::Fresh => Seq::empty(),
            },
    {
        let mut tools: Vec<Tool> = Vec::new();
        // There is no need to read the stored text if the list is fresh.
        if status == DatabaseStatus::Fresh {
            assert(names(tools@) =~= Seq::<Seq<char>>::empty());
            return Database { tools };
        }
        let text = chars_of(stored);
        let bounds = line_bounds(&text);
        let ghost ls = lines(text@);
        let ghost ended = ls.drop_last().map_values(
            |line: Seq<char>| without_carriage_return(line),
        );
        proof {
            lemma_lines_nonempty(text@);
        }
        let last: usize = bounds.len() - 1;
        let mut i: usize = 0;
        assert(names(tools@) =~= ended.take(0));
        while i < last
            invariant
                ls == lines(text@),
                ended == ls.drop_last().map_values(|line: Seq<char>| without_carriage_return(line)),
                bounds@.len() == ls.len(),
                last == bounds@.len() - 1,
                forall|k: int|
                    0 <= k < bounds@.len() ==> {
                        &&& (#[trigger] bounds@[k]).0 <= bounds@[k].1 <= text@.len()
                        &&& text@.subrange(bounds@[k].0 as int, bounds@[k].1 as int) == ls[k]
                    },
                0 <= i <= last,
                ended.len() == last,
                tools@.len() == i,
                names(tools@) == ended.take(i as int),
            decreases last - i,
        {
            let (from, to) = bounds[i];
            let end: usize = if to > from && text[to - 1] == '\r' {
                to - 1
            } else {
                to
            };
            let name = string_of_range(&text, from, end);
            proof {
                let line = ls[i as int];
                assert(line == text@.subrange(from as int, to as int));
                if to > from {
                    assert(line.last() == text@[to - 1]);
                    assert(line.drop_last() =~= text@.subrange(from as int, to - 1));
                }
                assert(name@ == without_carriage_return(line));
                assert(ls.drop_last()[i as int] == line);
                assert(ended[i as int] == name@);
                let grown = names(tools@.push(Tool(name)));
                assert forall|j: int| 0 <= j < i + 1 implies grown[j] == ended.take(i + 1)[j] by {
                    if j < i {
                        assert(grown[j] == names(tools@)[j]);
                        assert(ended.take(i as int)[j] == ended[j]);
                    }
                }
                assert(grown =~= ended.take(i + 1));
            }
            tools.push(Tool(name));
            i += 1;
        }
        assert(ended.take(last as int) =~= ended);
        let (from, to) = bounds[last];
        if to > from {
            let name = string_of_range(&text, from, to);
            assert(names(tools@.push(Tool(name))) =~= ended.push(ls.last()));
            tools.push(Tool(name));
        }
        Database { tools }
    }

    /// Adds a tool of the given name at the end of the list.
    pub fn add_tool(&mut self, tool: &str)
        ensures
            final(self)@ == old(self)@.push(tool@),
    {
        let name = String::from_str(tool);
        assert(names(self.tools@.push(Tool(name))) =~= names(self.tools@).push(tool@));
        self.tools.push(Tool(name));
    }

    /// Removes every tool of the given name from the list. The others stay,
    /// in their order.
    pub fn remove_tool(&mut self, tool: &str)
        ensures
            final(self)@ == old(self)@.filter(|name: Seq<char>| name != tool@),
    {
        let name = String::from_str(tool);
        let ghost stays = |name: Seq<char>| name != tool@;
        let ghost before = names(self.tools@);
        let mut kept: Vec<Tool> = Vec::new();
        let mut i: usize = 0;
        assert(before.take(0) =~= Seq::<Seq<char>>::empty());
        assert(names(kept@) =~= before.take(0).filter(stays));
        while i < self.tools.len()
            invariant
                before == names(self.tools@),
                name@ == tool@,
                stays == (|name: Seq<char>| name != tool@),
                0 <= i <= self.tools@.len(),
                names(kept@) == before.take(i as int).filter(stays),
            decreases self.tools@.len() - i,
        {
            proof {
                let upto = before.take(i + 1);
                assert(upto.drop_last() =~= before.take(i as int));
                assert(upto.last() == self.tools@[i as int]@);
                reveal(Seq::filter);
            }
            if self.tools[i].0 != name {
                let tool = Tool(self.tools[i].0.clone());
                assert(names(kept@.push(tool)) =~= names(kept@).push(tool@));
                kept.push(tool);
            }
            i += 1;
        }
        assert(before.take(i as int) =~= before);
        self.tools = kept;
    }

    /// Finds the tool of the given name: the first of that name in the list,
    /// if there is one.
    pub fn get_tool(&self, tool: &str) -> (found: Option<&Tool>)
        ensures
            found is Some <==> self@.contains(tool@),
            found matches Some(t) ==> t@ == tool@,
    {
        let name = String::from_str(tool);
        let mut i: usize = 0;
        while i < self.tools.len()
            invariant
                name@ == tool@,
                0 <= i <= self.tools@.len(),
                forall|j: int| 0 <= j < i ==> (#[trigger] self.tools@[j])@ != tool@,
            decreases self.tools@.len() - i,
        {
            if self.tools[i].0 == name {
                assert(names(self.tools@)[i as int] == tool@);
                return Some(&self.tools[i]);
            }
            i += 1;
        }
        assert forall|j: int| 0 <= j < names(self.tools@).len() implies names(self.tools@)[j]
            != tool@ by {
            assert(names(self.tools@)[j] == self.tools@[j]@);
        }
        None
    }

    /// All the tools of the list, in order.
    pub fn get_all_tools(&self) -> (tools: &Vec<Tool>)
        ensures
            names(tools@) == self@,
    {
        &self.tools
    }

    /// Picks a tool from the list: the first one, if the list has any.
    pub fn get_random_tool(&self) -> (picked: Option<&Tool>)
        ensures
            match picked {
                Some(t) => self@.len() > 0 && t@ == self@.first(),
                None => self@.len() == 0,
            },
    {
        if self.tools.len() > 0 {
            Some(&self.tools[0])
        } else {
            None
        }
    }

    /// The tool to fetch a tip for: the one of the requested name, or, where
    /// no name is requested, a pick from the list.
    pub fn tool_for(&self, requested: Option<&str>) -> (tool: Option<&Tool>)
        ensures
            match requested {
                Some(name) => {
                    &&& tool is Some <==> self@.contains(name@)
                    &&& tool matches Some(t) ==> t@ == name@
                },
                None => match tool {
                    Some(t) => self@.len() > 0 && t@ == self@.first(),
                    None => self@.len() == 0,
                },
            },
    {
        match requested {
            Some(name) => self.get_tool(name),
            None => self.get_random_tool(),
        }
    }

    /// The text to store for this list: each name with a newline after it.
    /// Nothing is written here; the text is the caller's to write.
    pub fn save(&self) -> (text: String)
        ensures
            text@ == stored_text(self@),
    {
        let mut text = String::new();
        let ghost all = names(self.tools@);
        let mut i: usize = 0;
        assert(all.take(0) =~= Seq::<Seq<char>>::empty());
        while i < self.tools.len()
            invariant
                all == names(self.tools@),
                0 <= i <= self.tools@.len(),
                text@ == stored_text(all.take(i as int)),
            decreases self.tools@.len() - i,
        {
            proof {
                reveal_strlit("\n");
                let upto = all.take(i + 1);
                assert(upto.drop_last() =~= all.take(i as int));
                assert(upto.last() == self.tools@[i as int]@);
                assert("\n"@ =~= seq!['\n']);
            }
            text.append(self.tools[i].0.as_str());
            text.append("\n");
            i += 1;
        }
        assert(all.take(i as int) =~= all);
        text
    }
}

} // verus!
