//! Grouping of tasks by the day they were made, and the avatar shown for a
//! task's owner.

use vstd::prelude::*;
use vstd::string::StrSliceExecFns;
use vstd::utf8::encode_utf8;

verus! {

/// The section of the task list that a task is shown in, by its date.
#[derive(Clone, Copy, Debug, PartialEq, Eq, Structural)]
pub enum DateSection {
    Today,
    Yesterday,
    Last30Days,
}

/// The upper-case form of a character, as `char::to_uppercase` of std
/// gives it.
pub uninterp spec fn uppercase_of(c: char) -> Seq<char>;

/// `char::to_uppercase` of std, its characters collected into a string.
#[verifier::external_body]
fn char_to_uppercase(c: char) -> (upper: String)
    ensures
        upper@ == uppercase_of(c),
{
    c.to_uppercase().collect()
}

/// The letter of an avatar: the upper-case form of the name's first
/// character, `None` for the empty name.
pub open spec fn avatar_initial(name: Seq<char>) -> Option<Seq<char>> {
    if name.len() == 0 {
        None
    } else {
        Some(uppercase_of(name[0]))
    }
}

/// What an avatar shows: the initial, or a question mark where there is
/// none.
pub fn initial_or_placeholder(initial: Option<String>) -> (letter: String)
    ensures
        letter@ == match initial {
            Some(text) => text@,
            None => "?"@,
        },
{
    match initial {
        Some(text) => text,
        None => "?".to_owned(),
    }
}

/// The letter shown in the avatar of `name`: the upper-case form of its
/// first character, or a question mark for the empty name.
pub fn avatar_letter(name: &str) -> (letter: String)
    ensures
        letter@ == match avatar_initial(name@) {
            Some(initial) => initial,
            None => "?"@,
        },
{
    let initial = if name.is_empty() {
        None
    } else {
        Some(char_to_uppercase(name.get_char(0)))
    };
    initial_or_placeholder(initial)
}

/// The sum of `bytes`, each taken as a number, wrapping around at 2^32.
pub open spec fn byte_sum(bytes: Seq<u8>) -> u32
    decreases bytes.len(),
{
    if bytes.len() == 0 {
        0
    } else {
        ((byte_sum(bytes.drop_last()) + bytes.last()) % 0x1_0000_0000) as u32
    }
}

/// The hue of an avatar's colour, in degrees: the sum of the bytes of the
/// name in UTF-8, wrapping around at 2^32, taken modulo 360.
pub open spec fn hue_of(name: Seq<char>) -> u32 {
    byte_sum(encode_utf8(name)) % 360
}

/// The hue, in degrees from 0 to 359, of the colour of the avatar of
/// `name`. The same name always gets the same hue.
pub fn avatar_hue(name: &str) -> (hue: u32)
    ensures
        hue == hue_of(name@),
        hue < 360,
{
    let bytes = name.as_bytes();
    let mut sum: u32 = 0;
    let mut i: usize = 0;
    assert(bytes@.subrange(0, 0) =~= Seq::<u8>::empty());
    while i < bytes.len()
        invariant
            i <= bytes@.len(),
            sum == byte_sum(bytes@.subrange(0, i as int)),
        decreases bytes.len() - i,
    {
        assert(bytes@.subrange(0, i + 1).drop_last() =~= bytes@.subrange(0, i as int));
        sum = ((sum as u64 + bytes[i] as u64) % 0x1_0000_0000) as u32;
        i += 1;
    }
    assert(bytes@.subrange(0, i as int) =~= bytes@);
    sum % 360
}

/// The section of a task made on the day `task_day` when today is `today`,
/// both counted in days from one common day: today's tasks, yesterday's, and
/// every other task, from before or after.
pub open spec fn section_of_day(task_day: int, today: int) -> DateSection {
    if task_day == today {
        DateSection::Today
    } else if task_day == today - 1 {
        DateSection::Yesterday
    } else {
        DateSection::Last30Days
    }
}

/// The section of a task made on the day `task_day` when today is `today`,
/// both counted in days from one common day.
pub fn categorize_by_date(task_day: i64, today: i64) -> (section: DateSection)
    ensures
        section == section_of_day(task_day as int, today as int),
{
    if task_day == today {
        DateSection::Today
    } else if today > i64::MIN && task_day == today - 1 {
        DateSection::Yesterday
    } else {
        DateSection::Last30Days
    }
}

/// The sections in the order they are shown.
pub open spec fn sections_in_order() -> Seq<DateSection> {
    seq![DateSection::Today, DateSection::Yesterday, DateSection::Last30Days]
}

impl DateSection {
    /// The place of the section in the list, from 0.
    pub open spec fn position(self) -> int {
        match self {
            DateSection::Today => 0,
            DateSection::Yesterday => 1,
            DateSection::Last30Days => 2,
        }
    }

    /// The heading of the section.
    pub fn label(&self) -> (label: &'static str)
        ensures
            label@ == match self {
                DateSection::Today => "今天"@,
                DateSection::Yesterday => "昨天"@,
                DateSection::Last30Days => "过去30天"@,
            },
    {
        match self {
            DateSection::Today => "今天",
            DateSection::Yesterday => "昨天",
            DateSection::Last30Days => "过去30天",
        }
    }

    /// All sections, in the order they are shown.
    pub fn all() -> (sections: [DateSection; 3])
        ensures
            sections@ == sections_in_order(),
    {
        let sections = [DateSection::Today, DateSection::Yesterday, DateSection::Last30Days];
        assert(sections@ =~= sections_in_order());
        sections
    }

    /// The section at `index` of the list, `None` past its end.
    pub fn from_index(index: usize) -> (section: Option<DateSection>)
        ensures
            match section {
                Some(section) => index < 3 && section == sections_in_order()[index as int],
                None => index >= 3,
            },
    {
        match index {
            0 => Some(DateSection::Today),
            1 => Some(DateSection::Yesterday),
            2 => Some(DateSection::Last30Days),
            _ => None,
        }
    }

    /// The place of the section in the list, from 0.
    pub fn index(&self) -> (index: usize)
        ensures
            index == self.position(),
            index < 3,
            sections_in_order()[index as int] == *self,
    {
        match self {
            DateSection::Today => 0,
            DateSection::Yesterday => 1,
            DateSection::Last30Days => 2,
        }
    }
}

/// A task of a workspace, as the task list shows it.
#[derive(Debug)]
pub struct WorkspaceTask {
    pub name: String,
    /// The session that works on the task, if one does.
    pub session_id: Option<String>,
    /// The last message of that session.
    pub last_message: Option<String>,
    /// When the task was made, in milliseconds since the Unix epoch.
    pub created_at: u64,
    /// The calendar day the task was made on, where the user is, counted in
    /// days from a fixed day.
    pub created_day: i64,
}

/// The place of a row in the task list.
#[derive(Clone, Copy, Debug, PartialEq, Eq, Structural)]
pub struct IndexPath {
    pub section: usize,
    pub row: usize,
}

/// The lower-case form of a text, as `str::to_lowercase` of std gives it.
pub uninterp spec fn lowercase_of(text: Seq<char>) -> Seq<char>;

/// `str::to_lowercase` of std.
#[verifier::external_body]
fn str_to_lowercase(text: &str) -> (lower: String)
    ensures
        lower@ == lowercase_of(text@),
{
    text.to_lowercase()
}

/// Whether `part` occurs in `text` as a run of neighbouring items.
pub open spec fn occurs_in(part: Seq<u8>, text: Seq<u8>) -> bool {
    exists|start: int|
        0 <= start && start + part.len() <= text.len() && #[trigger] text.subrange(
            start,
            start + part.len(),
        ) == part
}

/// Whether the text `part` occurs in the text `text`: the bytes of the one
/// in UTF-8 are a run of neighbouring bytes of the other. The empty text
/// occurs in every text.
pub open spec fn text_occurs_in(part: Seq<char>, text: Seq<char>) -> bool {
    occurs_in(encode_utf8(part), encode_utf8(text))
}

/// Whether `part` stands in `text` from the place `start` on.
fn stands_at(text: &[u8], part: &[u8], start: usize) -> (found: bool)
    requires
        start + part@.len() <= text@.len(),
    ensures
        found == (text@.subrange(start as int, start + part@.len()) == part@),
{
    let total = text.len();
    let mut i: usize = 0;
    while i < part.len()
        invariant
            i <= part@.len(),
            total == text@.len(),
            start + part@.len() <= text@.len(),
            forall|j: int| 0 <= j < i ==> text@[start + j] == part@[j],
        decreases part.len() - i,
    {
        if text[start + i] != part[i] {
            assert(text@.subrange(start as int, start + part@.len())[i as int] != part@[i as int]);
            return false;
        }
        i += 1;
    }
    assert(text@.subrange(start as int, start + part@.len()) =~= part@);
    true
}

/// Whether `part` occurs in `text` as a run of neighbouring bytes.
pub fn bytes_contain(text: &[u8], part: &[u8]) -> (found: bool)
    ensures
        found == occurs_in(part@, text@),
{
    if part.len() > text.len() {
        return false;
    }
    let last = text.len() - part.len();
    let mut start: usize = 0;
    while start < last
        invariant
            last == text@.len() - part@.len(),
            start <= last,
            forall|earlier: int|
                0 <= earlier < start ==> #[trigger] text@.subrange(earlier, earlier + part@.len())
                    != part@,
        decreases last - start,
    {
        if stands_at(text, part, start) {
            return true;
        }
        start += 1;
    }
    stands_at(text, part, last)
}

/// Whether the text `part` occurs in the text `text`.
pub fn text_contains(text: &str, part: &str) -> (found: bool)
    ensures
        found == text_occurs_in(part@, text@),
{
    bytes_contain(text.as_bytes(), part.as_bytes())
}

/// Whether a task passes the filter of a query, given in lower case: the
/// query occurs in the task's name or in its last message, letter case set
/// aside. The empty query lets every task pass.
pub open spec fn passes_filter(task: WorkspaceTask, query_lower: Seq<char>) -> bool {
    ||| text_occurs_in(query_lower, lowercase_of(task.name@))
    ||| (task.last_message is Some && text_occurs_in(
        query_lower,
        lowercase_of(task.last_message->0@),
    ))
}

/// Whether `task` passes the filter of a query given in lower case.
pub fn task_matches(task: &WorkspaceTask, query_lower: &str) -> (passes: bool)
    ensures
        passes == passes_filter(*task, query_lower@),
{
    let name = str_to_lowercase(task.name.as_str());
    if text_contains(name.as_str(), query_lower) {
        return true;
    }
    match &task.last_message {
        Some(message) => {
            let message = str_to_lowercase(message.as_str());
            text_contains(message.as_str(), query_lower)
        },
        None => false,
    }
}

/// Whether the task at `first` is listed above the task at `second` when
/// both stand in one section: the one made later comes first, and of two
/// made at the same time the one that comes first among all tasks.
pub open spec fn listed_before(tasks: Seq<WorkspaceTask>, first: int, second: int) -> bool {
    tasks[first].created_at > tasks[second].created_at || (tasks[first].created_at
        == tasks[second].created_at && first < second)
}

/// Whether the task at `index` belongs to the section at `section` for a
/// query and a day: it passes the filter and was made on a day of that
/// section.
pub open spec fn belongs_to(
    tasks: Seq<WorkspaceTask>,
    index: int,
    section: int,
    query_lower: Seq<char>,
    today: int,
) -> bool {
    passes_filter(tasks[index], query_lower) && section_of_day(
        tasks[index].created_day as int,
        today,
    ).position() == section
}

/// Whether `listed` is the section at `section` of the first `count` of
/// `tasks`: it lists, by their places among all tasks, exactly those of them
/// that belong to the section, each once, the later task first.
pub open spec fn lists_section(
    listed: Seq<usize>,
    tasks: Seq<WorkspaceTask>,
    count: int,
    section: int,
    query_lower: Seq<char>,
    today: int,
) -> bool {
    &&& forall|row: int|
        0 <= row < listed.len() ==> (#[trigger] listed[row]) < count && belongs_to(
            tasks,
            listed[row] as int,
            section,
            query_lower,
            today,
        )
    &&& forall|index: int|
        0 <= index < count && #[trigger] belongs_to(tasks, index, section, query_lower, today)
            ==> listed.contains(index as usize)
    &&& forall|upper: int, lower: int|
        0 <= upper < lower < listed.len() ==> listed_before(
            tasks,
            #[trigger] listed[upper] as int,
            #[trigger] listed[lower] as int,
        )
}

/// Whether `sections` group the first `count` of `tasks` for a query and a
/// day: there are three, each is the section of its place, and together
/// they list no more tasks than there are.
pub open spec fn groups_tasks(
    sections: Seq<Vec<usize>>,
    tasks: Seq<WorkspaceTask>,
    count: int,
    query_lower: Seq<char>,
    today: int,
) -> bool {
    &&& sections.len() == 3
    &&& lists_section(sections[0]@, tasks, count, 0, query_lower, today)
    &&& lists_section(sections[1]@, tasks, count, 1, query_lower, today)
    &&& lists_section(sections[2]@, tasks, count, 2, query_lower, today)
    &&& sections[0]@.len() + sections[1]@.len() + sections[2]@.len() <= count
}

/// A section stays what it is when the next task does not belong to it.
proof fn lemma_section_skips(
    listed: Seq<usize>,
    tasks: Seq<WorkspaceTask>,
    count: int,
    section: int,
    query_lower: Seq<char>,
    today: int,
)
    requires
        lists_section(listed, tasks, count, section, query_lower, today),
        !belongs_to(tasks, count, section, query_lower, today),
    ensures
        lists_section(listed, tasks, count + 1, section, query_lower, today),
{
}

/// A section takes in the next task at the row below the tasks made at the
/// same time or later and above the tasks made earlier.
proof fn lemma_section_takes(
    listed: Seq<usize>,
    tasks: Seq<WorkspaceTask>,
    count: int,
    section: int,
    query_lower: Seq<char>,
    today: int,
    row: int,
)
    requires
        lists_section(listed, tasks, count, section, query_lower, today),
        0 <= count < tasks.len(),
        count <= usize::MAX,
        belongs_to(tasks, count, section, query_lower, today),
        0 <= row <= listed.len(),
        forall|above: int|
            0 <= above < row ==> tasks[(#[trigger] listed[above]) as int].created_at
                >= tasks[count].created_at,
        row < listed.len() ==> tasks[listed[row] as int].created_at < tasks[count].created_at,
    ensures
        lists_section(
            listed.insert(row, count as usize),
            tasks,
            count + 1,
            section,
            query_lower,
            today,
        ),
{
    let grown = listed.insert(row, count as usize);
    assert forall|r: int| 0 <= r < grown.len() implies (#[trigger] grown[r]) < count + 1 && belongs_to(
        tasks,
        grown[r] as int,
        section,
        query_lower,
        today,
    ) by {
        if r < row {
            assert(grown[r] == listed[r]);
        } else if r > row {
            assert(grown[r] == listed[r - 1]);
        }
    }
    assert forall|index: int|
        0 <= index < count + 1 && #[trigger] belongs_to(
            tasks,
            index,
            section,
            query_lower,
            today,
        ) implies grown.contains(index as usize) by {
        if index == count {
            assert(grown[row] == count as usize);
        } else {
            assert(listed.contains(index as usize));
            let r = choose|r: int| 0 <= r < listed.len() && listed[r] == index as usize;
            if r < row {
                assert(grown[r] == index as usize);
            } else {
                assert(grown[r + 1] == index as usize);
            }
        }
    }
    assert forall|upper: int, lower: int| 0 <= upper < lower < grown.len() implies listed_before(
        tasks,
        #[trigger] grown[upper] as int,
        #[trigger] grown[lower] as int,
    ) by {
        if upper == row {
            assert(grown[lower] == listed[lower - 1]);
            assert(listed[lower - 1] < count);
            if lower - 1 > row {
                assert(listed_before(tasks, listed[row] as int, listed[lower - 1] as int));
            }
        } else if lower == row {
            assert(grown[upper] == listed[upper]);
            assert(listed[upper] < count);
        } else {
            let from_upper = if upper < row { upper } else { upper - 1 };
            let from_lower = if lower < row { lower } else { lower - 1 };
            assert(grown[upper] == listed[from_upper]);
            assert(grown[lower] == listed[from_lower]);
            assert(listed_before(tasks, listed[from_upper] as int, listed[from_lower] as int));
        }
    }
}

/// The row at which a section takes in a task made at `made`: below the
/// tasks made at the same time or later, above the tasks made earlier.
fn row_for(listed: &Vec<usize>, tasks: &Vec<WorkspaceTask>, made: u64) -> (row: usize)
    requires
        forall|r: int| 0 <= r < listed@.len() ==> (#[trigger] listed@[r]) < tasks@.len(),
        forall|upper: int, lower: int|
            0 <= upper < lower < listed@.len() ==> listed_before(
                tasks@,
                #[trigger] listed@[upper] as int,
                #[trigger] listed@[lower] as int,
            ),
    ensures
        row <= listed@.len(),
        forall|above: int|
            0 <= above < row ==> tasks@[(#[trigger] listed@[above]) as int].created_at >= made,
        row < listed@.len() ==> tasks@[listed@[row as int] as int].created_at < made,
{
    let mut row: usize = 0;
    while row < listed.len() && tasks[listed[row]].created_at >= made
        invariant
            row <= listed@.len(),
            forall|r: int| 0 <= r < listed@.len() ==> (#[trigger] listed@[r]) < tasks@.len(),
            forall|above: int|
                0 <= above < row ==> tasks@[(#[trigger] listed@[above]) as int].created_at >= made,
        decreases listed@.len() - row,
    {
        row += 1;
    }
    row
}

/// The state behind the task list: all tasks, the filter, and the tasks
/// that pass it, grouped into sections by the day they were made.
#[derive(Debug)]
pub struct TaskPanelDelegate {
    all_tasks: Vec<WorkspaceTask>,
    section_tasks: Vec<Vec<usize>>,
    query: String,
    today: i64,
    selected_index: Option<IndexPath>,
    collapsed_sections: Vec<bool>,
}

impl TaskPanelDelegate {
    /// All tasks, in the order they were loaded.
    pub closed spec fn tasks(&self) -> Seq<WorkspaceTask> {
        self.all_tasks@
    }

    /// The three sections, each as the places among all tasks of the tasks
    /// it lists, from the top.
    pub closed spec fn sections(&self) -> Seq<Vec<usize>> {
        self.section_tasks@
    }

    /// The query of the filter, as it was given.
    pub closed spec fn query(&self) -> Seq<char> {
        self.query@
    }

    /// The day the tasks were last grouped for.
    pub closed spec fn grouped_for(&self) -> int {
        self.today as int
    }

    /// The selected row, if one is selected.
    pub closed spec fn selection(&self) -> Option<IndexPath> {
        self.selected_index
    }

    /// For each of the three sections, whether it is collapsed.
    pub closed spec fn collapsed(&self) -> Seq<bool> {
        self.collapsed_sections@
    }

    /// The sections group all tasks for the query and the day.
    pub open spec fn wf(&self) -> bool {
        &&& self.collapsed().len() == 3
        &&& groups_tasks(
            self.sections(),
            self.tasks(),
            self.tasks().len() as int,
            lowercase_of(self.query()),
            self.grouped_for(),
        )
    }

    /// Whether a section lists the task at `index`.
    pub open spec fn is_listed(&self, index: int) -> bool {
        ||| self.sections()[0]@.contains(index as usize)
        ||| self.sections()[1]@.contains(index as usize)
        ||| self.sections()[2]@.contains(index as usize)
    }

    /// A delegate without tasks and without a query, all sections open.
    pub fn new() -> (delegate: TaskPanelDelegate)
        ensures
            delegate.wf(),
            delegate.tasks().len() == 0,
            delegate.query().len() == 0,
            delegate.selection() is None,
            delegate.collapsed() == seq![false, false, false],
            forall|section: int|
                0 <= section < 3 ==> (#[trigger] delegate.sections()[section])@.len() == 0,
    {
        let mut section_tasks: Vec<Vec<usize>> = Vec::new();
        section_tasks.push(Vec::new());
        section_tasks.push(Vec::new());
        section_tasks.push(Vec::new());
        let mut collapsed_sections: Vec<bool> = Vec::new();
        collapsed_sections.push(false);
        collapsed_sections.push(false);
        collapsed_sections.push(false);
        assert(collapsed_sections@ =~= seq![false, false, false]);
        TaskPanelDelegate {
            all_tasks: Vec::new(),
            section_tasks,
            query: String::new(),
            today: 0,
            selected_index: None,
            collapsed_sections,
        }
    }

    /// Groups the tasks that pass the filter into the sections anew, for
    /// the day `today`. Within a section the task made last comes first.
    fn categorize_tasks(&mut self, today: i64)
        requires
            old(self).collapsed().len() == 3,
        ensures
            final(self).wf(),
            final(self).tasks() == old(self).tasks(),
            final(self).query() == old(self).query(),
            final(self).grouped_for() == today,
            final(self).selection() == old(self).selection(),
            final(self).collapsed() == old(self).collapsed(),
    {
        let query_lower = str_to_lowercase(self.query.as_str());
        let mut sections: Vec<Vec<usize>> = Vec::new();
        sections.push(Vec::new());
        sections.push(Vec::new());
        sections.push(Vec::new());
        let mut index: usize = 0;
        while index < self.all_tasks.len()
            invariant
                index <= self.all_tasks@.len(),
                query_lower@ == lowercase_of(self.query@),
                groups_tasks(sections@, self.all_tasks@, index as int, query_lower@, today as int),
                *self == *old(self),
            decreases self.all_tasks.len() - index,
        {
            let ghost before = sections@;
            let mut taken: Option<usize> = None;
            if task_matches(&self.all_tasks[index], query_lower.as_str()) {
                let section = categorize_by_date(self.all_tasks[index].created_day, today).index();
                let row = row_for(
                    &sections[section],
                    &self.all_tasks,
                    self.all_tasks[index].created_at,
                );
                proof {
                    lemma_section_takes(
                        before[section as int]@,
                        self.all_tasks@,
                        index as int,
                        section as int,
                        query_lower@,
                        today as int,
                        row as int,
                    );
                }
                sections[section].insert(row, index);
                taken = Some(section);
            }
            proof {
                if taken != Some(0usize) {
                    lemma_section_skips(
                        before[0]@,
                        self.all_tasks@,
                        index as int,
                        0,
                        query_lower@,
                        today as int,
                    );
                }
                if taken != Some(1usize) {
                    lemma_section_skips(
                        before[1]@,
                        self.all_tasks@,
                        index as int,
                        1,
                        query_lower@,
                        today as int,
                    );
                }
                if taken != Some(2usize) {
                    lemma_section_skips(
                        before[2]@,
                        self.all_tasks@,
                        index as int,
                        2,
                        query_lower@,
                        today as int,
                    );
                }
            }
            index += 1;
        }
        self.section_tasks = sections;
        self.today = today;
    }

    /// Takes `tasks` as all tasks and groups them for the day `today`.
    pub fn load_tasks(&mut self, tasks: Vec<WorkspaceTask>, today: i64)
        requires
            old(self).wf(),
        ensures
            final(self).wf(),
            final(self).tasks() == tasks@,
            final(self).query() == old(self).query(),
            final(self).grouped_for() == today,
            final(self).selection() == old(self).selection(),
            final(self).collapsed() == old(self).collapsed(),
    {
        self.all_tasks = tasks;
        self.categorize_tasks(today);
    }

    /// Sets the query of the filter and groups the tasks for the day
    /// `today`.
    pub fn prepare(&mut self, query: String, today: i64)
        requires
            old(self).wf(),
        ensures
            final(self).wf(),
            final(self).tasks() == old(self).tasks(),
            final(self).query() == query@,
            final(self).grouped_for() == today,
            final(self).selection() == old(self).selection(),
            final(self).collapsed() == old(self).collapsed(),
    {
        self.query = query;
        self.categorize_tasks(today);
    }

    /// Selects a row, or none.
    pub fn set_selected_index(&mut self, index: Option<IndexPath>)
        requires
            old(self).wf(),
        ensures
            final(self).wf(),
            final(self).selection() == index,
            final(self).tasks() == old(self).tasks(),
            final(self).sections() == old(self).sections(),
            final(self).query() == old(self).query(),
            final(self).grouped_for() == old(self).grouped_for(),
            final(self).collapsed() == old(self).collapsed(),
    {
        self.selected_index = index;
    }

    /// Whether the section at `section` of the list is collapsed; a place
    /// past the last section is not.
    pub fn is_section_collapsed(&self, section: usize) -> (collapsed: bool)
        requires
            self.wf(),
        ensures
            collapsed == (section < 3 && self.collapsed()[section as int]),
    {
        section < self.collapsed_sections.len() && self.collapsed_sections[section]
    }

    /// Collapses the section at `section` of the list if it is open, and
    /// opens it if it is collapsed. Nothing happens for a place past the
    /// last section.
    pub fn toggle_section(&mut self, section: usize)
        requires
            old(self).wf(),
        ensures
            final(self).wf(),
            final(self).collapsed() == if section < 3 {
                old(self).collapsed().update(section as int, !old(self).collapsed()[section as int])
            } else {
                old(self).collapsed()
            },
            final(self).tasks() == old(self).tasks(),
            final(self).sections() == old(self).sections(),
            final(self).query() == old(self).query(),
            final(self).grouped_for() == old(self).grouped_for(),
            final(self).selection() == old(self).selection(),
    {
        if section < self.collapsed_sections.len() {
            let flipped = !self.collapsed_sections[section];
            self.collapsed_sections[section] = flipped;
        }
    }

    /// The task in the selected row, if a row is selected and the row
    /// exists.
    pub fn selected_task(&self) -> (task: Option<&WorkspaceTask>)
        requires
            self.wf(),
        ensures
            match self.selection() {
                Some(path) => if path.section < 3 && path.row
                    < self.sections()[path.section as int]@.len() {
                    task == Some(
                        &self.tasks()[self.sections()[path.section as int]@[path.row as int] as int],
                    )
                } else {
                    task is None
                },
                None => task is None,
            },
    {
        match self.selected_index {
            Some(path) => {
                if path.section < self.section_tasks.len() && path.row
                    < self.section_tasks[path.section].len() {
                    let index = self.section_tasks[path.section][path.row];
                    Some(&self.all_tasks[index])
                } else {
                    None
                }
            },
            None => None,
        }
    }

    /// The task in the row at `row` of the section at `section`, if there is
    /// such a row.
    pub fn task_at(&self, section: usize, row: usize) -> (task: Option<&WorkspaceTask>)
        requires
            self.wf(),
        ensures
            if section < 3 && row < self.sections()[section as int]@.len() {
                task == Some(&self.tasks()[self.sections()[section as int]@[row as int] as int])
            } else {
                task is None
            },
    {
        if section < self.section_tasks.len() && row < self.section_tasks[section].len() {
            let index = self.section_tasks[section][row];
            Some(&self.all_tasks[index])
        } else {
            None
        }
    }

    /// The number of tasks in the section at `section` of the list, 0 for a
    /// place past the last section.
    pub fn section_count(&self, section: usize) -> (count: usize)
        requires
            self.wf(),
        ensures
            count == if section < 3 {
                self.sections()[section as int]@.len()
            } else {
                0
            },
    {
        if section < self.section_tasks.len() {
            self.section_tasks[section].len()
        } else {
            0
        }
    }

    /// The number of tasks in all sections together.
    pub fn total_count(&self) -> (count: usize)
        requires
            self.wf(),
        ensures
            count == self.sections()[0]@.len() + self.sections()[1]@.len()
                + self.sections()[2]@.len(),
            count <= self.tasks().len(),
    {
        let bound = self.all_tasks.len();
        assert(self.sections()[0]@.len() + self.sections()[1]@.len() + self.sections()[2]@.len()
            <= bound);
        self.section_tasks[0].len() + self.section_tasks[1].len() + self.section_tasks[2].len()
    }

    /// Whether a section lists the task at `index`.
    #[verifier::loop_isolation(false)]
    fn lists(&self, index: usize) -> (listed: bool)
        requires
            self.wf(),
        ensures
            listed == self.is_listed(index as int),
    {
        let mut section: usize = 0;
        while section < 3
            invariant
                self.wf(),
                section <= 3,
                forall|s: int| 0 <= s < section ==> !(#[trigger] self.section_tasks@[s])@.contains(index),
            decreases 3 - section,
        {
            let listed = &self.section_tasks[section];
            let mut row: usize = 0;
            while row < listed.len()
                invariant
                    row <= listed@.len(),
                    forall|r: int| 0 <= r < row ==> listed@[r] != index,
                decreases listed.len() - row,
            {
                if listed[row] == index {
                    assert(self.sections()[section as int]@[row as int] == index);
                    return true;
                }
                row += 1;
            }
            section += 1;
        }
        false
    }

    /// Whether the task at `index` can take a new message for `session_id`:
    /// it belongs to that session, and no section lists it. A task that a
    /// section lists is in use by the list and is left as it is.
    pub open spec fn takes_message(&self, index: int, session_id: Seq<char>) -> bool {
        &&& 0 <= index < self.tasks().len()
        &&& self.tasks()[index].session_id is Some
        &&& self.tasks()[index].session_id->0@ == session_id
        &&& !self.is_listed(index)
    }

    /// Sets the last message of the first task that can take a message for
    /// `session_id`, groups the tasks anew for the day `today`, and returns
    /// `true`. Returns `false` and changes nothing if no task can take it.
    pub fn update_task_message(&mut self, session_id: &str, message: String, today: i64) -> (updated:
        bool)
        requires
            old(self).wf(),
        ensures
            final(self).wf(),
            final(self).query() == old(self).query(),
            final(self).selection() == old(self).selection(),
            final(self).collapsed() == old(self).collapsed(),
            updated == exists|index: int| old(self).takes_message(index, session_id@),
            !updated ==> final(self).tasks() == old(self).tasks() && final(self).sections() == old(
                self,
            ).sections() && final(self).grouped_for() == old(self).grouped_for(),
            updated ==> final(self).grouped_for() == today && exists|index: int|
                {
                    &&& #[trigger] old(self).takes_message(index, session_id@)
                    &&& forall|earlier: int|
                        0 <= earlier < index ==> !old(self).takes_message(earlier, session_id@)
                    &&& final(self).tasks().len() == old(self).tasks().len()
                    &&& forall|other: int|
                        0 <= other < old(self).tasks().len() && other != index
                            ==> #[trigger] final(self).tasks()[other] == old(self).tasks()[other]
                    &&& final(self).tasks()[index].last_message == Some(message)
                    &&& final(self).tasks()[index].name == old(self).tasks()[index].name
                    &&& final(self).tasks()[index].session_id == old(self).tasks()[index].session_id
                    &&& final(self).tasks()[index].created_at == old(self).tasks()[index].created_at
                    &&& final(self).tasks()[index].created_day
                        == old(self).tasks()[index].created_day
                },
    {
        let wanted = session_id.to_owned();
        let mut index: usize = 0;
        while index < self.all_tasks.len()
            invariant
                *self == *old(self),
                self.wf(),
                wanted@ == session_id@,
                index <= self.all_tasks@.len(),
                forall|earlier: int|
                    0 <= earlier < index ==> !self.takes_message(earlier, session_id@),
            decreases self.all_tasks.len() - index,
        {
            let belongs = match &self.all_tasks[index].session_id {
                Some(id) => *id == wanted,
                None => false,
            };
            if belongs && !self.lists(index) {
                assert(old(self).takes_message(index as int, session_id@));
                self.all_tasks[index].last_message = Some(message);
                self.categorize_tasks(today);
                return true;
            }
            index += 1;
        }
        false
    }
}

} // verus!
