//! The scene with the list of mods.
//!
//! The list is shown six mods at a time. The cursor moves up and down through the whole list and
//! the shoulder buttons turn the pages.

use crate::menu::{Button, LocalChannel, MenuScene, RootEvent, VirtualController};
use crate::strings::{decimal, decimal_text};
use vstd::prelude::*;
use vstd::string::StringExecFns;

verus! {

/// The number of mods on a page.
pub const ROW_COUNT: usize = 6;

/// A mod in the list.
pub struct ModListEntry {
    pub name: String,
    pub is_enabled: bool,
    pub is_zip_file: bool,
    pub authors: Vec<String>,
    pub version: Option<String>,
    pub description: Option<String>,
}

impl ModListEntry {
    /// A mod in a folder, of which only the name is known.
    pub fn new(name: String) -> (r: ModListEntry)
        ensures
            r.name == name,
            r.is_enabled,
            !r.is_zip_file,
            r.authors@.len() == 0,
            r.version is None,
            r.description is None,
    {
        ModListEntry {
            name,
            is_enabled: true,
            is_zip_file: false,
            authors: Vec::new(),
            version: None,
            description: None,
        }
    }

    /// A mod in a zip file, of which only the name is known.
    pub fn zip(name: String) -> (r: ModListEntry)
        ensures
            r.name == name,
            r.is_enabled,
            r.is_zip_file,
            r.authors@.len() == 0,
            r.version is None,
            r.description is None,
    {
        ModListEntry {
            name,
            is_enabled: true,
            is_zip_file: true,
            authors: Vec::new(),
            version: None,
            description: None,
        }
    }

    /// The text that says where the mod is.
    pub fn category_text(&self) -> (r: &'static str)
        ensures
            r@ == if self.is_zip_file {
                "Compressed Zip File"@
            } else {
                "Mod Folder"@
            },
    {
        if self.is_zip_file {
            "Compressed Zip File"
        } else {
            "Mod Folder"
        }
    }

    /// The text with the authors and the version.
    pub fn info_text(&self) -> (r: String)
        ensures
            r@ == "Authors: "@ + authors_text(self.authors@) + "\nVersion: "@ + (match self.version {
                Some(v) => v@,
                None => "???"@,
            }),
    {
        let mut r: String = String::from_str("Authors: ");
        if self.authors.len() == 0 {
            r.append("???");
        } else {
            r.append(self.authors[0].as_str());
            for i in 1..self.authors.len()
                invariant
                    self.authors@.len() > 0,
                    r@ == "Authors: "@ + joined_names(self.authors@.take(i as int)),
            {
                r.append(", ");
                r.append(self.authors[i].as_str());
                proof {
                    let front = self.authors@.take(i as int);
                    let next = self.authors@.take(i + 1);
                    assert(next.drop_last() =~= front);
                    assert(r@ =~= "Authors: "@ + joined_names(next));
                }
            }
            proof {
                assert(self.authors@.take(self.authors@.len() as int) =~= self.authors@);
            }
        }
        r.append("\nVersion: ");
        match &self.version {
            Some(version) => r.append(version.as_str()),
            None => r.append("???"),
        }
        r
    }

    /// The description, which is empty if there is none.
    pub fn description_text(&self) -> (r: &str)
        ensures
            r@ == (match self.description {
                Some(d) => d@,
                None => ""@,
            }),
    {
        match &self.description {
            Some(description) => description.as_str(),
            None => "",
        }
    }
}

/// Names with commas between them.
pub open spec fn joined_names(names: Seq<String>) -> Seq<char>
    decreases names.len(),
{
    if names.len() == 0 {
        Seq::empty()
    } else if names.len() == 1 {
        names[0]@
    } else {
        joined_names(names.drop_last()) + ", "@ + names.last()@
    }
}

/// The authors of a mod, as they are shown.
pub open spec fn authors_text(names: Seq<String>) -> Seq<char> {
    if names.len() == 0 {
        "???"@
    } else {
        joined_names(names)
    }
}

/// The text above the list.
pub fn page_text(page: usize, page_count: usize) -> (r: String)
    requires
        page < page_count,
    ensures
        r@ == "Mods ("@ + decimal((page + 1) as nat) + "/"@ + decimal(page_count as nat) + ")"@,
{
    let mut r: String = String::from_str("Mods (");
    r.append(decimal_text(page + 1).as_str());
    r.append("/");
    r.append(decimal_text(page_count).as_str());
    r.append(")");
    r
}

/// The text that says which mod the cursor is on.
pub fn number_text(entry: usize, entry_count: usize) -> (r: String)
    requires
        entry < entry_count,
    ensures
        r@ == decimal((entry + 1) as nat) + "/"@ + decimal(entry_count as nat),
{
    let mut r: String = decimal_text(entry + 1);
    r.append("/");
    r.append(decimal_text(entry_count).as_str());
    r
}

/// A way to move the cursor.
pub enum Step {
    Down,
    Up,
    NextPage,
    PreviousPage,
    Stay,
}

/// The move that the controllers ask for.
pub open spec fn step_of(controller: &VirtualController) -> Step {
    if controller.any(Button::Down) {
        Step::Down
    } else if controller.any(Button::Up) {
        Step::Up
    } else if controller.any(Button::ShoulderR) {
        Step::NextPage
    } else if controller.any(Button::ShoulderL) {
        Step::PreviousPage
    } else {
        Step::Stay
    }
}

/// The number of pages. A list whose last page is full has an empty page behind it.
pub open spec fn page_count(entries: int) -> int {
    entries / 6 + 1
}

/// Number of the last row on a page, less than zero if the page is empty.
pub open spec fn last_row(entries: int, page: int) -> int {
    if page == page_count(entries) - 1 {
        entries - page * 6 - 1
    } else {
        5
    }
}

/// A place of the cursor: a page and a row on it.
pub struct Place {
    pub page: int,
    pub row: int,
}

impl Place {
    /// Index of the mod at this place.
    pub open spec fn entry(self) -> int {
        self.page * 6 + self.row
    }

    /// Is there a mod at this place?
    pub open spec fn is_in(self, entries: int) -> bool {
        0 <= self.page && 0 <= self.row < 6 && self.entry() < entries
    }

    /// The place after a move. At the ends of the list, the cursor goes round.
    pub open spec fn moved(self, entries: int, step: Step) -> Place {
        let pages = page_count(entries);
        match step {
            Step::Down => if self.row == last_row(entries, self.page) {
                Place { page: (self.page + 1) % pages, row: 0 }
            } else {
                Place { row: self.row + 1, ..self }
            },
            Step::Up => if self.row == 0 {
                let page = (self.page + pages - 1) % pages;
                Place { page, row: last_row(entries, page) }
            } else {
                Place { row: self.row - 1, ..self }
            },
            Step::NextPage => Place { page: (self.page + 1) % pages, ..self }.fitted(entries),
            Step::PreviousPage => Place { page: (self.page + pages - 1) % pages, ..self }.fitted(entries),
            Step::Stay => self,
        }
    }

    /// The place on the same page with the row no lower than the last one.
    pub open spec fn fitted(self, entries: int) -> Place {
        if self.row <= entries - self.page * 6 - 1 {
            self
        } else {
            Place { row: entries - self.page * 6 - 1, ..self }
        }
    }
}

/// In a list that does not end with a full page, no move leaves the list.
pub proof fn law_moves_stay(place: Place, entries: int, step: Step)
    requires
        place.is_in(entries),
        entries % 6 != 0,
    ensures
        place.moved(entries, step).is_in(entries),
{
    let pages = page_count(entries);
    let next = (place.page + 1) % pages;
    let previous = (place.page + pages - 1) % pages;
    lemma_turn(place.page, pages);
}

proof fn lemma_turn(page: int, pages: int)
    requires
        0 <= page < pages,
    ensures
        (page + 1) % pages == if page == pages - 1 {
            0
        } else {
            page + 1
        },
        (page + pages - 1) % pages == if page == 0 {
            pages - 1
        } else {
            page - 1
        },
{
    if page == pages - 1 {
        vstd::arithmetic::div_mod::lemma_mod_self_0(pages);
    } else {
        vstd::arithmetic::div_mod::lemma_small_mod((page + 1) as nat, pages as nat);
    }
    if page == 0 {
        vstd::arithmetic::div_mod::lemma_small_mod((pages - 1) as nat, pages as nat);
    } else {
        vstd::arithmetic::div_mod::lemma_mod_add_multiples_vanish(page - 1, pages);
        vstd::arithmetic::div_mod::lemma_small_mod((page - 1) as nat, pages as nat);
    }
}

/// In a list that does not end with a full page, going down visits the mods in order and then starts
/// again, and going up undoes going down.
pub proof fn law_down_and_up(place: Place, entries: int)
    requires
        place.is_in(entries),
        entries % 6 != 0,
    ensures
        place.moved(entries, Step::Down).entry() == (place.entry() + 1) % entries,
        place.moved(entries, Step::Down).moved(entries, Step::Up) == place,
        place.moved(entries, Step::Up).moved(entries, Step::Down) == place,
{
    let pages = page_count(entries);
    lemma_turn(place.page, pages);
    let down = place.moved(entries, Step::Down);
    let up = place.moved(entries, Step::Up);
    law_moves_stay(place, entries, Step::Down);
    law_moves_stay(place, entries, Step::Up);
    lemma_turn(down.page, pages);
    lemma_turn(up.page, pages);
    if place.entry() + 1 < entries {
        vstd::arithmetic::div_mod::lemma_small_mod((place.entry() + 1) as nat, entries as nat);
    } else {
        vstd::arithmetic::div_mod::lemma_mod_self_0(entries);
    }
}

/// Turning a page back undoes turning it.
pub proof fn law_pages(place: Place, entries: int)
    requires
        place.is_in(entries),
        entries % 6 != 0,
    ensures
        place.moved(entries, Step::NextPage).moved(entries, Step::PreviousPage).page == place.page,
        place.moved(entries, Step::PreviousPage).moved(entries, Step::NextPage).page == place.page,
{
    let pages = page_count(entries);
    lemma_turn(place.page, pages);
    lemma_turn(place.moved(entries, Step::NextPage).page, pages);
    lemma_turn(place.moved(entries, Step::PreviousPage).page, pages);
}

/// A change of what is shown.
#[derive(Copy, Clone, Debug, PartialEq, Eq, Structural)]
pub enum ModsAction {
    /// The text above the list.
    PageText { page: usize, page_count: usize },
    /// The row is empty.
    HideRow { row: usize },
    /// The row shows a mod when the scene is entered. Its animation starts.
    StartRow { row: usize, entry: usize },
    /// The row shows a mod, and whether it is enabled.
    ShowRow { row: usize, entry: usize, on: bool },
    /// The cursor leaves the row.
    LeaveRow { row: usize },
    /// Everything that is known of a mod is shown.
    ShowInfo { entry: usize },
    /// The cursor is on the row. Whether its mod is enabled is shown.
    EnterRow { row: usize, on: bool },
}

/// The rows of the first page when the scene is entered.
pub open spec fn first_rows(entries: Seq<ModListEntry>) -> Seq<ModsAction> {
    Seq::new(
        6,
        |i: int|
            if i >= entries.len() {
                ModsAction::HideRow { row: i as usize }
            } else {
                ModsAction::StartRow { row: i as usize, entry: i as usize }
            },
    )
}

/// The rows of a page after it was turned.
pub open spec fn page_rows(entries: Seq<ModListEntry>, page: int) -> Seq<ModsAction> {
    Seq::new(
        6,
        |i: int|
            if page * 6 + i >= entries.len() {
                ModsAction::HideRow { row: i as usize }
            } else {
                ModsAction::ShowRow {
                    row: i as usize,
                    entry: (page * 6 + i) as usize,
                    on: entries[page * 6 + i].is_enabled,
                }
            },
    )
}

/// The list of mods.
pub struct ModsList {
    pub entries: Vec<ModListEntry>,
    pub current_local: usize,
    pub current_page: usize,
    pub was_disabled_last: bool,
}

impl ModsList {
    /// The place of the cursor. It starts at the top whenever the scene is entered.
    pub open spec fn start(&self) -> Place {
        if self.was_disabled_last {
            Place { page: 0, row: 0 }
        } else {
            Place { page: self.current_page as int, row: self.current_local as int }
        }
    }

    /// The cursor is on a mod, or the scene has not been entered.
    pub open spec fn wf(&self) -> bool {
        self.was_disabled_last || self.start().is_in(self.entries@.len() as int)
    }

    /// Where the controllers move the cursor to.
    pub open spec fn target(&self, controller: &VirtualController) -> Place {
        self.start().moved(self.entries@.len() as int, step_of(controller))
    }

    pub open spec fn is_active(&self, scene: MenuScene, controller: &VirtualController) -> bool {
        scene == MenuScene::Mods && !controller.any(Button::Cancel)
    }

    /// The mods after the update: the one that the cursor moved to is switched on or off if it was
    /// accepted.
    pub open spec fn switched(&self, controller: &VirtualController) -> Seq<ModListEntry> {
        let e = self.target(controller).entry();
        if controller.any(Button::Accept) {
            self.entries@.update(
                e,
                ModListEntry { is_enabled: !self.entries@[e].is_enabled, ..self.entries@[e] },
            )
        } else {
            self.entries@
        }
    }

    /// What is to be shown when the list is updated, in this order.
    pub open spec fn actions(&self, controller: &VirtualController) -> Seq<ModsAction> {
        let pages = page_count(self.entries@.len() as int) as usize;
        let from = self.start();
        let to = self.target(controller);
        let entered = if self.was_disabled_last {
            seq![ModsAction::PageText { page: 0, page_count: pages }] + first_rows(self.entries@)
        } else {
            Seq::empty()
        };
        let left = if to.row != from.row {
            seq![ModsAction::LeaveRow { row: from.row as usize }]
        } else {
            Seq::empty()
        };
        let turned = if to.page != from.page {
            seq![ModsAction::PageText { page: to.page as usize, page_count: pages }] + page_rows(
                self.entries@,
                to.page,
            )
        } else {
            Seq::empty()
        };
        entered + left + turned + seq![
            ModsAction::ShowInfo { entry: to.entry() as usize },
            ModsAction::EnterRow {
                row: to.row as usize,
                on: self.switched(controller)[to.entry()].is_enabled,
            },
        ]
    }

    /// The list before the scene is entered.
    pub fn new(entries: Vec<ModListEntry>) -> (r: ModsList)
        ensures
            r.wf(),
            r.entries == entries,
            r.was_disabled_last,
            r.current_local == 0,
            r.current_page == 0,
    {
        ModsList { entries, current_local: 0, current_page: 0, was_disabled_last: true }
    }

    /// Where the controllers move the cursor to, as page and row. `None` if there is no mod there,
    /// as in an empty list and on the empty page behind a full one.
    pub fn next_place(&self, controller: &VirtualController) -> (r: Option<(usize, usize)>)
        requires
            self.wf(),
        ensures
            match r {
                Some((page, row)) => self.target(controller) == (Place {
                    page: page as int,
                    row: row as int,
                }) && self.target(controller).is_in(self.entries@.len() as int),
                None => !self.target(controller).is_in(self.entries@.len() as int),
            },
    {
        let count: usize = self.entries.len();
        let last: usize = count / ROW_COUNT;
        let (page, row): (usize, usize) = if self.was_disabled_last {
            (0, 0)
        } else {
            (self.current_page, self.current_local)
        };
        if count == 0 {
            proof {
                let t = self.target(controller);
                assert(page_count(0) == 1);
                assert(t.page == 0);
            }
            return None;
        }
        proof {
            assert(page <= last);
            lemma_turn(page as int, last + 1);
        }
        let next: usize = if page == last {
            0
        } else {
            page + 1
        };
        let previous: usize = if page == 0 {
            last
        } else {
            page - 1
        };
        let (new_page, rows): (usize, usize) = if controller.down() {
            if row == 5 || page == last && row == count - page * 6 - 1 {
                (next, 1)
            } else {
                (page, row + 2)
            }
        } else if controller.up() {
            if row > 0 {
                (page, row)
            } else if previous == last {
                (previous, count - previous * 6)
            } else {
                (previous, 6)
            }
        } else if controller.shoulder_r() {
            (next, rows_up_to(count, next, row))
        } else if controller.shoulder_l() {
            (previous, rows_up_to(count, previous, row))
        } else {
            (page, row + 1)
        };
        if rows == 0 || new_page * 6 + (rows - 1) >= count {
            None
        } else {
            Some((new_page, rows - 1))
        }
    }
}

/// The number of rows of a page down to the given one, or to the last one if that is higher.
fn rows_up_to(count: usize, page: usize, row: usize) -> (r: usize)
    requires
        page <= count / 6,
        row < 6,
    ensures
        r == (Place { page: page as int, row: row as int }).fitted(count as int).row + 1,
{
    let rows: usize = count - page * 6;
    if row < rows {
        row + 1
    } else {
        rows
    }
}

fn push_first_rows(entries: &Vec<ModListEntry>, actions: &mut Vec<ModsAction>)
    ensures
        final(actions)@ == old(actions)@ + first_rows(entries@),
{
    let ghost before = actions@;
    for i in 0..ROW_COUNT
        invariant
            actions@ == before + first_rows(entries@).take(i as int),
    {
        if i >= entries.len() {
            actions.push(ModsAction::HideRow { row: i });
        } else {
            actions.push(ModsAction::StartRow { row: i, entry: i });
        }
        proof {
            assert(actions@ =~= before + first_rows(entries@).take(i + 1));
        }
    }
    proof {
        assert(first_rows(entries@).take(6) =~= first_rows(entries@));
    }
}

fn push_page_rows(entries: &Vec<ModListEntry>, page: usize, actions: &mut Vec<ModsAction>)
    requires
        page <= entries@.len() / 6,
    ensures
        final(actions)@ == old(actions)@ + page_rows(entries@, page as int),
{
    let ghost before = actions@;
    proof {
        assert(page * 6 <= entries@.len() && entries.len() <= usize::MAX);
    }
    let offset: usize = page * ROW_COUNT;
    for i in 0..ROW_COUNT
        invariant
            offset == page * 6,
            offset <= entries@.len(),
            actions@ == before + page_rows(entries@, page as int).take(i as int),
    {
        if i >= entries.len() - offset {
            actions.push(ModsAction::HideRow { row: i });
        } else {
            let e: usize = offset + i;
            actions.push(ModsAction::ShowRow { row: i, entry: e, on: entries[e].is_enabled });
        }
        proof {
            assert(actions@ =~= before + page_rows(entries@, page as int).take(i + 1));
        }
    }
    proof {
        assert(page_rows(entries@, page as int).take(6) =~= page_rows(entries@, page as int));
    }
}

impl ModsList {
    /// Updates the list and returns what is to be shown. Nothing is while another scene is, and when
    /// the scene is left, which is asked of `root`.
    pub fn update(
        &mut self,
        scene: MenuScene,
        controller: &VirtualController,
        root: &mut LocalChannel<RootEvent>,
    ) -> (r: Vec<ModsAction>)
        requires
            old(self).wf(),
            old(self).is_active(scene, controller) ==> old(self).target(controller).is_in(
                old(self).entries@.len() as int,
            ),
        ensures
            final(self).wf(),
            final(root)@ == if scene == MenuScene::Mods && controller.any(Button::Cancel) {
                old(root)@.push(RootEvent::ShowMainMenu)
            } else {
                old(root)@
            },
            if old(self).is_active(scene, controller) {
                &&& r@ == old(self).actions(controller)
                &&& final(self).entries@ == old(self).switched(controller)
                &&& final(self).start() == old(self).target(controller)
                &&& !final(self).was_disabled_last
            } else {
                &&& r@.len() == 0
                &&& final(self).entries == old(self).entries
                &&& final(self).current_page == old(self).current_page
                &&& final(self).current_local == old(self).current_local
                &&& final(self).was_disabled_last == (scene != MenuScene::Mods
                    || old(self).was_disabled_last)
            },
    {
        let mut actions: Vec<ModsAction> = Vec::new();
        if scene != MenuScene::Mods {
            self.was_disabled_last = true;
            return actions;
        }
        if controller.cancel() {
            root.send(RootEvent::ShowMainMenu);
            return actions;
        }
        let Some((page, row)) = self.next_place(controller) else {
            return vstd::pervasive::unreached();
        };
        let pages: usize = self.entries.len() / ROW_COUNT + 1;
        if self.was_disabled_last {
            self.current_local = 0;
            self.current_page = 0;
            actions.push(ModsAction::PageText { page: 0, page_count: pages });
            push_first_rows(&self.entries, &mut actions);
        }
        let ghost from = old(self).start();
        let ghost entered = actions@;
        proof {
            assert(from.page == self.current_page && from.row == self.current_local);
            assert(entered =~= if old(self).was_disabled_last {
                seq![ModsAction::PageText { page: 0, page_count: pages }] + first_rows(self.entries@)
            } else {
                Seq::empty()
            });
        }
        if row != self.current_local {
            actions.push(ModsAction::LeaveRow { row: self.current_local });
        }
        if page != self.current_page {
            actions.push(ModsAction::PageText { page, page_count: pages });
            push_page_rows(&self.entries, page, &mut actions);
        }
        self.current_page = page;
        self.current_local = row;
        let e: usize = page * ROW_COUNT + row;
        actions.push(ModsAction::ShowInfo { entry: e });
        if controller.select() {
            let on: bool = !self.entries[e].is_enabled;
            self.entries[e].is_enabled = on;
        }
        proof {
            assert(self.entries@ =~= old(self).switched(controller));
        }
        actions.push(ModsAction::EnterRow { row, on: self.entries[e].is_enabled });
        self.was_disabled_last = false;
        proof {
            assert(actions@ =~= old(self).actions(controller));
        }
        actions
    }
}

/// Where the buttons move the cursor to, in a list that has mods. Down goes to the next mod and up to the
/// one before; past the last mod comes the first, and before the first the last. The right shoulder button
/// turns to the next page and past the last page to the first, the left one to the page before and from the
/// first page to the last. The row stays as far as the page has it. Down goes before up, up before the
/// right shoulder button, and that before the left one. A list whose last page is full has an empty page
/// behind it, on which there is no mod.
pub proof fn law_buttons_move(list: &ModsList, controller: &VirtualController)
    requires
        list.wf(),
        list.entries@.len() > 0,
    ensures
        ({
            let n = list.entries@.len() as int;
            let from = list.start();
            let to = list.target(controller);
            let down = controller.any(Button::Down);
            let up = controller.any(Button::Up) && !down;
            let right = controller.any(Button::ShoulderR) && !down && !controller.any(Button::Up);
            let left = controller.any(Button::ShoulderL) && !down && !controller.any(Button::Up)
                && !controller.any(Button::ShoulderR);
            &&& from.page * 6 + from.row < n
            &&& down ==> 0 <= to.row < 6 && to.page * 6 + to.row == if from.page * 6 + from.row < n - 1
                || n % 6 == 0 {
                from.page * 6 + from.row + 1
            } else {
                0
            }
            &&& up && (from.page > 0 || from.row > 0) ==> 0 <= to.row < 6 && to.page * 6 + to.row
                == from.page * 6 + from.row - 1
            &&& up && from.page == 0 && from.row == 0 ==> to.page == n / 6 && to.page * 6 + to.row == n - 1
            &&& right && from.page < n / 6 ==> to.page == from.page + 1
            &&& right && from.page == n / 6 ==> to.page == 0
            &&& left && from.page > 0 ==> to.page == from.page - 1
            &&& left && from.page == 0 ==> to.page == n / 6
            &&& right || left ==> to.row <= from.row && to.page * 6 + to.row < n && (to.row < from.row
                ==> to.page * 6 + to.row == n - 1)
            &&& !down && !up && !right && !left ==> to == from
        }),
{
    let n = list.entries@.len() as int;
    lemma_turn(list.start().page, n / 6 + 1);
}

/// In a list with mods, the cursor is moved onto a mod unless the page it comes to is the empty one behind
/// a full page.
pub proof fn law_cursor_on_mod(list: &ModsList, controller: &VirtualController)
    requires
        list.wf(),
        list.entries@.len() > 0,
    ensures
        list.target(controller).is_in(list.entries@.len() as int) <==> list.target(controller).page * 6
            < list.entries@.len(),
{
    let n = list.entries@.len() as int;
    lemma_turn(list.start().page, n / 6 + 1);
    law_buttons_move(list, controller);
}

/// Accepting switches the mod that the cursor moved to, and no other. Nothing else of a mod changes.
pub proof fn law_switched(list: &ModsList, controller: &VirtualController, i: int)
    requires
        list.target(controller).is_in(list.entries@.len() as int),
        0 <= i < list.entries@.len(),
    ensures
        list.switched(controller).len() == list.entries@.len(),
        ({
            let old = list.entries@[i];
            let new = list.switched(controller)[i];
            let to = list.target(controller);
            &&& new.name == old.name
            &&& new.is_zip_file == old.is_zip_file
            &&& new.authors == old.authors
            &&& new.version == old.version
            &&& new.description == old.description
            &&& new.is_enabled != old.is_enabled <==> controller.any(Button::Accept) && i == to.page * 6
                + to.row
        }),
{
}

/// What is shown is what the list holds: rows show the mods of the page that the cursor came to, and the
/// row of the cursor shows whether its mod is enabled by now.
#[verifier::spinoff_prover]
#[verifier::rlimit(40)]
pub proof fn law_shown(list: &ModsList, controller: &VirtualController, k: int)
    requires
        list.wf(),
        list.target(controller).is_in(list.entries@.len() as int),
        list.entries@.len() <= usize::MAX,
        0 <= k < list.actions(controller).len(),
    ensures
        ({
            let n = list.entries@.len() as int;
            let from = list.start();
            let to = list.target(controller);
            match list.actions(controller)[k] {
                ModsAction::PageText { page, page_count } => page_count == n / 6 + 1 && (page == to.page
                    || list.was_disabled_last && page == 0),
                ModsAction::HideRow { row } => row < 6 && (to.page * 6 + row >= n
                    || list.was_disabled_last && row >= n),
                ModsAction::StartRow { row, entry } => list.was_disabled_last && row < 6 && entry == row
                    && entry < n,
                ModsAction::ShowRow { row, entry, on } => row < 6 && entry == to.page * 6 + row && entry < n
                    && on == list.entries@[entry as int].is_enabled,
                ModsAction::LeaveRow { row } => row == from.row && row != to.row,
                ModsAction::ShowInfo { entry } => entry == to.page * 6 + to.row,
                ModsAction::EnterRow { row, on } => row == to.row && on == list.switched(
                    controller,
                )[to.page * 6 + to.row].is_enabled,
            }
        }),
{
    let n = list.entries@.len() as int;
    let from = list.start();
    let to = list.target(controller);
    if n > 0 {
        law_buttons_move(list, controller);
    }
    let pages = page_count(n) as usize;
    let entered = if list.was_disabled_last {
        seq![ModsAction::PageText { page: 0, page_count: pages }] + first_rows(list.entries@)
    } else {
        Seq::empty()
    };
    let left = if to.row != from.row {
        seq![ModsAction::LeaveRow { row: from.row as usize }]
    } else {
        Seq::empty()
    };
    let turned = if to.page != from.page {
        seq![ModsAction::PageText { page: to.page as usize, page_count: pages }] + page_rows(
            list.entries@,
            to.page,
        )
    } else {
        Seq::empty()
    };
    let a = list.actions(controller);
    let last = seq![
        ModsAction::ShowInfo { entry: to.entry() as usize },
        ModsAction::EnterRow {
            row: to.row as usize,
            on: list.switched(controller)[to.entry()].is_enabled,
        },
    ];
    assert(a == entered + left + turned + last);
    assert(0 <= to.page && 0 <= to.row < 6 && to.page * 6 + to.row < n);
    if k < entered.len() {
        assert(a[k] == entered[k]);
        if k > 0 {
            assert(entered[k] == first_rows(list.entries@)[k - 1]);
        }
    } else if k < entered.len() + left.len() {
        assert(a[k] == left[k - entered.len()]);
    } else if k < entered.len() + left.len() + turned.len() {
        let j = k - entered.len() - left.len();
        assert(a[k] == turned[j]);
        if j > 0 {
            assert(turned[j] == page_rows(list.entries@, to.page)[j - 1]);
        }
    } else {
        assert(a[k] == last[k - entered.len() - left.len() - turned.len()]);
    }
}

/// All that is to be shown is: when the scene is entered, every mod of the first page; when the page was
/// turned, every mod of the new one; and always the mod that the cursor is on.
#[verifier::spinoff_prover]
#[verifier::rlimit(40)]
pub proof fn law_all_shown(list: &ModsList, controller: &VirtualController, row: int)
    requires
        list.wf(),
        list.target(controller).is_in(list.entries@.len() as int),
        list.entries@.len() <= usize::MAX,
        0 <= row < 6,
    ensures
        ({
            let n = list.entries@.len() as int;
            let from = list.start();
            let to = list.target(controller);
            let a = list.actions(controller);
            let e = to.page * 6 + row;
            &&& list.was_disabled_last ==> a.contains(
                if row < n {
                    ModsAction::StartRow { row: row as usize, entry: row as usize }
                } else {
                    ModsAction::HideRow { row: row as usize }
                },
            )
            &&& to.page != from.page ==> a.contains(
                if e < n {
                    ModsAction::ShowRow {
                        row: row as usize,
                        entry: e as usize,
                        on: list.entries@[e].is_enabled,
                    }
                } else {
                    ModsAction::HideRow { row: row as usize }
                },
            )
            &&& to.page != from.page ==> a.contains(
                ModsAction::PageText { page: to.page as usize, page_count: (n / 6 + 1) as usize },
            )
            &&& to.row != from.row ==> a.contains(ModsAction::LeaveRow { row: from.row as usize })
            &&& a[a.len() - 2] == (ModsAction::ShowInfo { entry: (to.page * 6 + to.row) as usize })
            &&& a.last() == (ModsAction::EnterRow {
                row: to.row as usize,
                on: list.switched(controller)[to.page * 6 + to.row].is_enabled,
            })
        }),
{
    let n = list.entries@.len() as int;
    let from = list.start();
    let to = list.target(controller);
    let pages = page_count(n) as usize;
    let entered = if list.was_disabled_last {
        seq![ModsAction::PageText { page: 0, page_count: pages }] + first_rows(list.entries@)
    } else {
        Seq::empty()
    };
    let left = if to.row != from.row {
        seq![ModsAction::LeaveRow { row: from.row as usize }]
    } else {
        Seq::empty()
    };
    let a = list.actions(controller);
    if list.was_disabled_last {
        assert(a[1 + row] == first_rows(list.entries@)[row]);
    }
    if to.row != from.row {
        assert(a[entered.len() as int] == left[0]);
    }
    if to.page != from.page {
        let t = (entered.len() + left.len()) as int;
        assert(a[t] == (ModsAction::PageText { page: to.page as usize, page_count: pages }));
        assert(a[t + 1 + row] == page_rows(list.entries@, to.page)[row]);
    }
}

/// The mods that the list starts with.
pub fn default_entries() -> (r: Vec<ModListEntry>)
    ensures
        r@.len() == 10,
        forall|i: int| 0 <= i < 10 ==> (#[trigger] r@[i]).name@ == default_name(i),
        forall|i: int| 0 <= i < 10 ==> (#[trigger] r@[i]).is_zip_file == default_is_zip(i),
        forall|i: int|
            0 <= i < 10 ==> (#[trigger] r@[i]).is_enabled && r@[i].authors@.len() == 0 && r@[i].version
                is None && r@[i].description is None,
{
    vec![
        ModListEntry::zip(String::from_str("HDR-Skins")),
        ModListEntry::zip(String::from_str("HDR-Stages")),
        ModListEntry::zip(String::from_str("Ponytail Peach")),
        ModListEntry::new(String::from_str("Thwomp Kirby (C08)")),
        ModListEntry::new(String::from_str("Knuckles")),
        ModListEntry::new(String::from_str("Colored Turnips")),
        ModListEntry::zip(String::from_str("P5D Joker")),
        ModListEntry::new(String::from_str("Octoling (C13)")),
        ModListEntry::new(String::from_str("MP2 Dark Samus (C09)")),
        ModListEntry::zip(String::from_str("Secret Sauce")),
    ]
}

/// Name of mod `i` of those that the list starts with.
pub open spec fn default_name(i: int) -> Seq<char> {
    if i == 0 {
        "HDR-Skins"@
    } else if i == 1 {
        "HDR-Stages"@
    } else if i == 2 {
        "Ponytail Peach"@
    } else if i == 3 {
        "Thwomp Kirby (C08)"@
    } else if i == 4 {
        "Knuckles"@
    } else if i == 5 {
        "Colored Turnips"@
    } else if i == 6 {
        "P5D Joker"@
    } else if i == 7 {
        "Octoling (C13)"@
    } else if i == 8 {
        "MP2 Dark Samus (C09)"@
    } else {
        "Secret Sauce"@
    }
}

/// Is mod `i` of those that the list starts with in a zip file?
pub open spec fn default_is_zip(i: int) -> bool {
    i == 0 || i == 1 || i == 2 || i == 6 || i == 9
}

/// The names of authors stand one behind the other with commas between them. Where none is known, question
/// marks do.
pub proof fn law_authors(names: Seq<String>, name: String)
    ensures
        authors_text(Seq::empty()) == "???"@,
        authors_text(seq![name]) == name@,
        names.len() > 0 ==> authors_text(names.push(name)) == authors_text(names) + ", "@ + name@,
{
    assert(names.push(name).drop_last() =~= names);
}

} // verus!
