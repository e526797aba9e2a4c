//! What the menu decides: scenes, buttons and the list of mods.
//!
//! The functions here take what the controllers report and say what is to be shown. Drawing it is left
//! to the caller.

use std::collections::VecDeque;
use vstd::prelude::*;

verus! {

/// The scenes of the menu. One of them is shown at a time.
#[derive(Copy, Clone, Debug, PartialEq, Eq, Structural)]
pub enum MenuScene {
    MainMenu,
    Mods,
    Settings,
    Update,
}

/// What a scene asks of the menu as a whole.
#[derive(Copy, Clone, Debug, PartialEq, Eq, Structural)]
pub enum RootEvent {
    ShowMainMenu,
    ShowMods,
    ShowSettings,
    ShowUpdate,
    Play,
    Quit,
}

/// What a button of the main menu is told.
#[derive(Copy, Clone, Debug, PartialEq, Eq, Structural)]
pub enum MainMenuButtonEvent {
    Select,
    Unselect,
}

/// Events that wait to be handled, the oldest first.
pub struct LocalChannel<T> {
    events: VecDeque<T>,
}

impl<T> View for LocalChannel<T> {
    type V = Seq<T>;

    closed spec fn view(&self) -> Seq<T> {
        self.events@
    }
}

impl<T> LocalChannel<T> {
    pub fn new() -> (r: LocalChannel<T>)
        ensures
            r@ == Seq::<T>::empty(),
    {
        LocalChannel { events: VecDeque::new() }
    }

    /// Puts an event behind those that wait.
    pub fn send(&mut self, event: T)
        ensures
            final(self)@ == old(self)@.push(event),
    {
        self.events.push_back(event);
    }

    /// Takes the oldest event.
    pub fn recv(&mut self) -> (r: Option<T>)
        ensures
            match r {
                Some(event) => old(self)@.len() > 0 && event == old(self)@[0] && final(self)@
                    == old(self)@.drop_first(),
                None => old(self)@.len() == 0 && final(self)@ == old(self)@,
            },
    {
        let r = self.events.pop_front();
        proof {
            if r is Some {
                assert(self@ =~= old(self)@.drop_first());
            }
        }
        r
    }
}

/// What one controller reports. The shoulder buttons are reported both when they are pressed and for
/// as long as they are down.
#[derive(Copy, Clone, Debug, PartialEq, Eq, Structural)]
pub struct Pad {
    pub up: bool,
    pub down: bool,
    pub right: bool,
    pub left: bool,
    pub select: bool,
    pub cancel: bool,
    pub shoulder_r: bool,
    pub shoulder_l: bool,
    pub shoulder_r_down: bool,
    pub shoulder_l_down: bool,
}

/// All controllers as one: a button is pressed if it is pressed on any of them.
pub struct VirtualController {
    pub pads: Vec<Pad>,
}

/// The ports that controllers are looked for at: the handheld ones first.
pub fn controller_ports() -> (r: Vec<u32>)
    ensures
        r@ == seq![0x20u32, 0x10, 0, 1, 2, 3, 4, 5, 6, 7],
{
    let r: Vec<u32> = vec![0x20, 0x10, 0, 1, 2, 3, 4, 5, 6, 7];
    proof {
        assert(r@ =~= seq![0x20u32, 0x10, 0, 1, 2, 3, 4, 5, 6, 7]);
    }
    r
}

/// Buttons of a controller.
#[derive(Copy, Clone, Debug, PartialEq, Eq, Structural)]
pub enum Button {
    Up,
    Down,
    Right,
    Left,
    Accept,
    Cancel,
    ShoulderR,
    ShoulderL,
    ShoulderRDown,
    ShoulderLDown,
}

impl Pad {
    pub open spec fn spec_reports(self, button: Button) -> bool {
        match button {
            Button::Up => self.up,
            Button::Down => self.down,
            Button::Right => self.right,
            Button::Left => self.left,
            Button::Accept => self.select,
            Button::Cancel => self.cancel,
            Button::ShoulderR => self.shoulder_r,
            Button::ShoulderL => self.shoulder_l,
            Button::ShoulderRDown => self.shoulder_r_down,
            Button::ShoulderLDown => self.shoulder_l_down,
        }
    }

    /// Does the controller report this button?
    pub fn reports(&self, button: Button) -> (r: bool)
        ensures
            r == self.spec_reports(button),
    {
        match button {
            Button::Up => self.up,
            Button::Down => self.down,
            Button::Right => self.right,
            Button::Left => self.left,
            Button::Accept => self.select,
            Button::Cancel => self.cancel,
            Button::ShoulderR => self.shoulder_r,
            Button::ShoulderL => self.shoulder_l,
            Button::ShoulderRDown => self.shoulder_r_down,
            Button::ShoulderLDown => self.shoulder_l_down,
        }
    }
}

impl VirtualController {
    /// Is the button reported by any controller?
    pub open spec fn any(&self, button: Button) -> bool {
        exists|i: int| 0 <= i < self.pads@.len() && (#[trigger] self.pads@[i]).spec_reports(button)
    }

    pub fn reports(&self, button: Button) -> (r: bool)
        ensures
            r == self.any(button),
    {
        for i in 0..self.pads.len()
            invariant
                forall|j: int| 0 <= j < i ==> !(#[trigger] self.pads@[j]).spec_reports(button),
        {
            if self.pads[i].reports(button) {
                return true;
            }
        }
        false
    }

    pub fn up(&self) -> (r: bool)
        ensures
            r == self.any(Button::Up),
    {
        self.reports(Button::Up)
    }

    pub fn down(&self) -> (r: bool)
        ensures
            r == self.any(Button::Down),
    {
        self.reports(Button::Down)
    }

    pub fn right(&self) -> (r: bool)
        ensures
            r == self.any(Button::Right),
    {
        self.reports(Button::Right)
    }

    pub fn left(&self) -> (r: bool)
        ensures
            r == self.any(Button::Left),
    {
        self.reports(Button::Left)
    }

    pub fn select(&self) -> (r: bool)
        ensures
            r == self.any(Button::Accept),
    {
        self.reports(Button::Accept)
    }

    pub fn cancel(&self) -> (r: bool)
        ensures
            r == self.any(Button::Cancel),
    {
        self.reports(Button::Cancel)
    }

    pub fn shoulder_r(&self) -> (r: bool)
        ensures
            r == self.any(Button::ShoulderR),
    {
        self.reports(Button::ShoulderR)
    }

    pub fn shoulder_l(&self) -> (r: bool)
        ensures
            r == self.any(Button::ShoulderL),
    {
        self.reports(Button::ShoulderL)
    }

    pub fn shoulder_r_down(&self) -> (r: bool)
        ensures
            r == self.any(Button::ShoulderRDown),
    {
        self.reports(Button::ShoulderRDown)
    }

    pub fn shoulder_l_down(&self) -> (r: bool)
        ensures
            r == self.any(Button::ShoulderLDown),
    {
        self.reports(Button::ShoulderLDown)
    }
}

/// How far the icon of the main menu is turned in one step, in degrees.
pub const ICON_STEP: i32 = 3;

/// By how many degrees the icon of the main menu is to be turned. `None` if it is left alone.
pub fn icon_turn(scene: MenuScene, controller: &VirtualController) -> (r: Option<i32>)
    ensures
        r is Some <==> scene == MenuScene::MainMenu && (controller.any(Button::ShoulderRDown)
            || controller.any(Button::ShoulderLDown)),
        r matches Some(turn) ==> turn == (if controller.any(Button::ShoulderRDown) {
            3int
        } else {
            0
        }) - (if controller.any(Button::ShoulderLDown) {
            3int
        } else {
            0
        }),
{
    if scene != MenuScene::MainMenu {
        return None;
    }
    let clockwise: bool = controller.shoulder_r_down();
    let back: bool = controller.shoulder_l_down();
    if clockwise && back {
        Some(0)
    } else if clockwise {
        Some(ICON_STEP)
    } else if back {
        Some(-ICON_STEP)
    } else {
        None
    }
}

/// What the program does about an event of the menu.
#[derive(Copy, Clone, Debug, PartialEq, Eq, Structural)]
pub enum RootAction {
    /// The menu closes after this frame.
    Close,
    /// Only this scene is shown.
    Show(MenuScene),
    /// The program ends.
    Exit,
}

/// The action that an event asks for.
pub open spec fn action_of(event: RootEvent) -> RootAction {
    match event {
        RootEvent::Play => RootAction::Close,
        RootEvent::ShowMainMenu => RootAction::Show(MenuScene::MainMenu),
        RootEvent::ShowMods => RootAction::Show(MenuScene::Mods),
        RootEvent::ShowSettings => RootAction::Show(MenuScene::Settings),
        RootEvent::ShowUpdate => RootAction::Show(MenuScene::Update),
        RootEvent::Quit => RootAction::Exit,
    }
}

/// The node of a scene.
pub fn scene_node(scene: MenuScene) -> (r: &'static str)
    ensures
        r@ == (match scene {
            MenuScene::MainMenu => "Stratus/Main Menu"@,
            MenuScene::Mods => "Stratus/Mods"@,
            MenuScene::Settings => "Stratus/Settings"@,
            MenuScene::Update => "Stratus/Update"@,
        }),
{
    match scene {
        MenuScene::MainMenu => "Stratus/Main Menu",
        MenuScene::Mods => "Stratus/Mods",
        MenuScene::Settings => "Stratus/Settings",
        MenuScene::Update => "Stratus/Update",
    }
}

/// The menu as a whole.
#[derive(Copy, Clone, Debug, PartialEq, Eq, Structural)]
pub struct Menu {
    pub scene: MenuScene,
    pub should_shut_down: bool,
}

impl Menu {
    pub fn new() -> (r: Menu)
        ensures
            r == (Menu { scene: MenuScene::MainMenu, should_shut_down: false }),
    {
        Menu { scene: MenuScene::MainMenu, should_shut_down: false }
    }

    /// The menu after an event.
    pub open spec fn after(self, event: RootEvent) -> Menu {
        match action_of(event) {
            RootAction::Close => Menu { should_shut_down: true, ..self },
            RootAction::Show(scene) => Menu { scene, ..self },
            RootAction::Exit => self,
        }
    }

    /// The menu after events, one after the other.
    pub open spec fn after_all(self, events: Seq<RootEvent>) -> Menu
        decreases events.len(),
    {
        if events.len() == 0 {
            self
        } else {
            self.after(events[0]).after_all(events.drop_first())
        }
    }

    /// Handles one event and returns what is to be done about it.
    pub fn handle(&mut self, event: RootEvent) -> (r: RootAction)
        ensures
            *final(self) == old(self).after(event),
            r == action_of(event),
    {
        match event {
            RootEvent::Play => {
                self.should_shut_down = true;
                RootAction::Close
            },
            RootEvent::ShowMainMenu => {
                self.scene = MenuScene::MainMenu;
                RootAction::Show(MenuScene::MainMenu)
            },
            RootEvent::ShowMods => {
                self.scene = MenuScene::Mods;
                RootAction::Show(MenuScene::Mods)
            },
            RootEvent::ShowSettings => {
                self.scene = MenuScene::Settings;
                RootAction::Show(MenuScene::Settings)
            },
            RootEvent::ShowUpdate => {
                self.scene = MenuScene::Update;
                RootAction::Show(MenuScene::Update)
            },
            RootEvent::Quit => RootAction::Exit,
        }
    }

    /// Handles all events that wait, and returns what is to be done about them, in order.
    pub fn handle_all(&mut self, root: &mut LocalChannel<RootEvent>) -> (r: Vec<RootAction>)
        ensures
            final(root)@.len() == 0,
            *final(self) == old(self).after_all(old(root)@),
            r@ == old(root)@.map_values(|event: RootEvent| action_of(event)),
    {
        let mut r: Vec<RootAction> = Vec::new();
        let ghost to_action = |event: RootEvent| action_of(event);
        loop
            invariant
                to_action == |event: RootEvent| action_of(event),
                self.after_all(root@) == old(self).after_all(old(root)@),
                r@ + root@.map_values(to_action) == old(root)@.map_values(to_action),
            ensures
                root@.len() == 0,
                self.after_all(root@) == old(self).after_all(old(root)@),
                r@ + root@.map_values(to_action) == old(root)@.map_values(to_action),
            decreases root@.len(),
        {
            let ghost waiting = root@;
            let ghost done = r@;
            match root.recv() {
                Some(event) => {
                    let action = self.handle(event);
                    r.push(action);
                    proof {
                        assert(r@ + root@.map_values(to_action) =~= done + waiting.map_values(to_action));
                    }
                },
                None => {
                    break ;
                },
            }
        }
        proof {
            assert(root@.map_values(to_action) =~= Seq::empty());
            assert(r@ =~= r@ + root@.map_values(to_action));
        }
        r
    }
}

/// The number of buttons in the main menu.
pub const BUTTON_COUNT: usize = 5;

/// How a button of the main menu looks and what it does.
#[derive(Copy, Clone, Debug)]
pub struct ButtonFace {
    /// Name of its node.
    pub name: &'static str,
    pub label: &'static str,
    /// Path of the icon to show.
    pub mark: &'static str,
    pub event: RootEvent,
}

/// The event that button `i` sends when it is accepted.
pub open spec fn button_event(i: int) -> RootEvent {
    if i == 0 {
        RootEvent::Play
    } else if i == 1 {
        RootEvent::ShowMods
    } else if i == 2 {
        RootEvent::ShowSettings
    } else if i == 3 {
        RootEvent::ShowUpdate
    } else {
        RootEvent::Quit
    }
}

/// The label of button `i`.
pub open spec fn button_label(i: int) -> Seq<char> {
    if i == 0 {
        "Play"@
    } else if i == 1 {
        "Mods"@
    } else if i == 2 {
        "Settings"@
    } else if i == 3 {
        "Update"@
    } else {
        "Quit"@
    }
}

/// The name of button `i`.
pub open spec fn button_name(i: int) -> Seq<char> {
    if i == 0 {
        "main_menu_btn_play"@
    } else if i == 1 {
        "main_menu_btn_mods"@
    } else if i == 2 {
        "main_menu_btn_settings"@
    } else if i == 3 {
        "main_menu_btn_update"@
    } else {
        "main_menu_btn_quit"@
    }
}

/// The icon of button `i`.
pub open spec fn button_mark(i: int) -> Seq<char> {
    if i == 0 {
        "category/icon/mark_play"@
    } else if i == 1 {
        "category/icon/mark_mods"@
    } else if i == 2 {
        "category/icon/mark_settings"@
    } else if i == 3 {
        "category/icon/mark_update"@
    } else {
        "category/icon/mark_quit"@
    }
}

/// The face of a button of the main menu.
pub fn button_face(i: usize) -> (r: ButtonFace)
    requires
        i < BUTTON_COUNT,
    ensures
        r.name@ == button_name(i as int),
        r.label@ == button_label(i as int),
        r.mark@ == button_mark(i as int),
        r.event == button_event(i as int),
{
    if i == 0 {
        ButtonFace {
            name: "main_menu_btn_play",
            label: "Play",
            mark: "category/icon/mark_play",
            event: RootEvent::Play,
        }
    } else if i == 1 {
        ButtonFace {
            name: "main_menu_btn_mods",
            label: "Mods",
            mark: "category/icon/mark_mods",
            event: RootEvent::ShowMods,
        }
    } else if i == 2 {
        ButtonFace {
            name: "main_menu_btn_settings",
            label: "Settings",
            mark: "category/icon/mark_settings",
            event: RootEvent::ShowSettings,
        }
    } else if i == 3 {
        ButtonFace {
            name: "main_menu_btn_update",
            label: "Update",
            mark: "category/icon/mark_update",
            event: RootEvent::ShowUpdate,
        }
    } else {
        ButtonFace {
            name: "main_menu_btn_quit",
            label: "Quit",
            mark: "category/icon/mark_quit",
            event: RootEvent::Quit,
        }
    }
}

/// State of a button of the main menu.
#[derive(Copy, Clone, Debug, PartialEq, Eq, Structural)]
pub struct MainMenuButton {
    pub is_selected: bool,
    /// The button that is selected when the scene is entered.
    pub is_scene_default: bool,
    /// Was another scene shown when the button was last updated?
    pub was_disabled: bool,
}

/// The buttons of the main menu and what they have been told.
pub struct MainMenu {
    buttons: Vec<MainMenuButton>,
    channels: Vec<LocalChannel<MainMenuButtonEvent>>,
}

/// What the main menu holds: its buttons, and the events that wait for each of them.
pub struct MainMenuView {
    pub buttons: Seq<MainMenuButton>,
    pub waiting: Seq<Seq<MainMenuButtonEvent>>,
}

/// The buttons that are pressed, as far as the main menu cares.
pub struct Pressed {
    pub up: bool,
    pub down: bool,
    pub select: bool,
}

impl VirtualController {
    pub open spec fn pressed(&self) -> Pressed {
        Pressed {
            up: self.any(Button::Up),
            down: self.any(Button::Down),
            select: self.any(Button::Accept),
        }
    }
}

/// The button above, where the first one follows the last.
pub open spec fn above(i: int) -> int {
    (i + 4) % 5
}

/// The button below, where the last one is followed by the first.
pub open spec fn below(i: int) -> int {
    (i + 1) % 5
}

/// Is button `i` about to send its event?
pub open spec fn accepts(b: MainMenuButton, scene: MenuScene, pressed: Pressed) -> bool {
    scene == MenuScene::MainMenu && b.is_selected && !pressed.down && !pressed.up && pressed.select
}

impl MainMenuView {
    pub open spec fn wf(self) -> bool {
        self.buttons.len() == 5 && self.waiting.len() == 5
    }

    pub open spec fn send(self, i: int, event: MainMenuButtonEvent) -> MainMenuView {
        MainMenuView { waiting: self.waiting.update(i, self.waiting[i].push(event)), ..self }
    }

    /// The default button is told to be selected when the scene comes back.
    pub open spec fn entered(self, i: int) -> MainMenuView {
        if self.buttons[i].was_disabled && self.buttons[i].is_scene_default {
            self.send(i, MainMenuButtonEvent::Select)
        } else {
            self
        }
    }

    /// The selected button hands the selection on, or gives it up when it is accepted.
    pub open spec fn handed_on(self, i: int, pressed: Pressed) -> MainMenuView {
        if !self.buttons[i].is_selected {
            self
        } else if pressed.down {
            self.send(below(i), MainMenuButtonEvent::Select).send(i, MainMenuButtonEvent::Unselect)
        } else if pressed.up {
            self.send(above(i), MainMenuButtonEvent::Select).send(i, MainMenuButtonEvent::Unselect)
        } else if pressed.select {
            self.send(i, MainMenuButtonEvent::Unselect)
        } else {
            self
        }
    }

    /// The button takes the oldest of its events.
    pub open spec fn told(self, i: int) -> MainMenuView {
        if self.waiting[i].len() == 0 {
            self
        } else {
            MainMenuView {
                buttons: self.buttons.update(
                    i,
                    MainMenuButton {
                        is_selected: self.waiting[i][0] == MainMenuButtonEvent::Select,
                        ..self.buttons[i]
                    },
                ),
                waiting: self.waiting.update(i, self.waiting[i].drop_first()),
            }
        }
    }

    pub open spec fn with_disabled(self, i: int, was_disabled: bool) -> MainMenuView {
        MainMenuView {
            buttons: self.buttons.update(i, MainMenuButton { was_disabled, ..self.buttons[i] }),
            ..self
        }
    }

    /// The menu after button `i` was updated.
    pub open spec fn updated(self, i: int, scene: MenuScene, pressed: Pressed) -> MainMenuView {
        if scene != MenuScene::MainMenu {
            self.with_disabled(i, true)
        } else {
            self.entered(i).with_disabled(i, false).handed_on(i, pressed).told(i)
        }
    }

    /// Whether the button changes its looks when it is updated, and to what.
    pub open spec fn shown(self, i: int, scene: MenuScene, pressed: Pressed) -> Option<bool> {
        let m = self.entered(i).with_disabled(i, false).handed_on(i, pressed);
        if scene != MenuScene::MainMenu || m.waiting[i].len() == 0 {
            None
        } else {
            Some(m.waiting[i][0] == MainMenuButtonEvent::Select)
        }
    }
}

impl View for MainMenu {
    type V = MainMenuView;

    closed spec fn view(&self) -> MainMenuView {
        MainMenuView {
            buttons: self.buttons@,
            waiting: self.channels@.map_values(|c: LocalChannel<MainMenuButtonEvent>| c@),
        }
    }
}

impl MainMenu {
    pub open spec fn wf(&self) -> bool {
        self@.wf()
    }

    /// The main menu when the program starts: the first button is about to be selected.
    pub fn new() -> (r: MainMenu)
        ensures
            r.wf(),
            forall|i: int|
                0 <= i < 5 ==> #[trigger] r@.buttons[i] == (MainMenuButton {
                    is_selected: false,
                    is_scene_default: i == 0,
                    was_disabled: false,
                }),
            forall|i: int|
                0 <= i < 5 ==> #[trigger] r@.waiting[i] == if i == 0 {
                    seq![MainMenuButtonEvent::Select]
                } else {
                    Seq::empty()
                },
    {
        let mut buttons: Vec<MainMenuButton> = Vec::new();
        let mut channels: Vec<LocalChannel<MainMenuButtonEvent>> = Vec::new();
        for i in 0..BUTTON_COUNT
            invariant
                buttons@.len() == i,
                channels@.len() == i,
                forall|j: int|
                    0 <= j < i ==> #[trigger] buttons@[j] == (MainMenuButton {
                        is_selected: false,
                        is_scene_default: j == 0,
                        was_disabled: false,
                    }),
                forall|j: int|
                    0 <= j < i ==> (#[trigger] channels@[j])@ == if j == 0 {
                        seq![MainMenuButtonEvent::Select]
                    } else {
                        Seq::empty()
                    },
        {
            let mut channel: LocalChannel<MainMenuButtonEvent> = LocalChannel::new();
            if i == 0 {
                channel.send(MainMenuButtonEvent::Select);
                proof {
                    assert(channel@ =~= seq![MainMenuButtonEvent::Select]);
                }
            }
            buttons.push(
                MainMenuButton { is_selected: false, is_scene_default: i == 0, was_disabled: false },
            );
            channels.push(channel);
        }
        MainMenu { buttons, channels }
    }

    fn send(&mut self, i: usize, event: MainMenuButtonEvent)
        requires
            old(self).wf(),
            i < 5,
        ensures
            final(self)@ == old(self)@.send(i as int, event),
    {
        self.channels[i].send(event);
        proof {
            assert(self@.waiting =~= old(self)@.send(i as int, event).waiting);
        }
    }

    /// Updates a button. Returns whether it is to be shown as selected, if that changes. A button
    /// that is accepted sends its event to `root`.
    pub fn update(
        &mut self,
        i: usize,
        scene: MenuScene,
        controller: &VirtualController,
        root: &mut LocalChannel<RootEvent>,
    ) -> (r: Option<bool>)
        requires
            old(self).wf(),
            i < BUTTON_COUNT,
        ensures
            final(self).wf(),
            final(self)@ == old(self)@.updated(i as int, scene, controller.pressed()),
            r == old(self)@.shown(i as int, scene, controller.pressed()),
            final(root)@ == if accepts(old(self)@.buttons[i as int], scene, controller.pressed()) {
                old(root)@.push(button_event(i as int))
            } else {
                old(root)@
            },
    {
        let mut button = self.buttons[i];
        if scene != MenuScene::MainMenu {
            button.was_disabled = true;
            self.buttons.set(i, button);
            return None;
        }
        if button.was_disabled && button.is_scene_default {
            self.send(i, MainMenuButtonEvent::Select);
        }
        button.was_disabled = false;
        self.buttons.set(i, button);
        if button.is_selected {
            if controller.down() {
                self.send((i + 1) % BUTTON_COUNT, MainMenuButtonEvent::Select);
                self.send(i, MainMenuButtonEvent::Unselect);
            } else if controller.up() {
                self.send((i + 4) % BUTTON_COUNT, MainMenuButtonEvent::Select);
                self.send(i, MainMenuButtonEvent::Unselect);
            } else if controller.select() {
                self.send(i, MainMenuButtonEvent::Unselect);
                root.send(button_face(i).event);
            }
        }
        let ghost m = self@;
        proof {
            assert(m == old(self)@.entered(i as int).with_disabled(i as int, false).handed_on(
                i as int,
                controller.pressed(),
            ));
            assert(m.waiting.len() == 5);
            assert(self.channels@.len() == 5);
        }
        match self.channels[i].recv() {
            Some(event) => {
                button.is_selected = matches!(event, MainMenuButtonEvent::Select);
                self.buttons.set(i, button);
                proof {
                    assert(self@.waiting =~= m.told(i as int).waiting);
                    assert(self@.buttons =~= m.told(i as int).buttons);
                }
                Some(button.is_selected)
            },
            None => {
                proof {
                    assert(self@.waiting =~= m.waiting);
                }
                None
            },
        }
    }
}

/// Button `j` is not selected, and nothing waits for it.
pub open spec fn idle(m: MainMenuView, j: int) -> bool {
    !m.buttons[j].is_selected && m.waiting[j].len() == 0
}

/// Button `k` is the one that is selected, or it is about to be, and no other button is.
pub open spec fn focused(m: MainMenuView, k: int) -> bool {
    &&& m.wf()
    &&& 0 <= k < 5
    &&& forall|j: int| 0 <= j < 5 && j != k ==> #[trigger] idle(m, j)
    &&& if m.buttons[k].is_selected {
        m.waiting[k].len() == 0
    } else {
        m.waiting[k] =~= seq![MainMenuButtonEvent::Select]
    }
}

/// No button is selected or about to be.
pub open spec fn unfocused(m: MainMenuView) -> bool {
    &&& m.wf()
    &&& forall|j: int| 0 <= j < 5 ==> #[trigger] idle(m, j)
}

/// One button at a time is selected. Up and down move the selection to a neighbour, and accepting a
/// button takes it away. Updating a button while another scene is shown moves nothing.
pub proof fn law_one_focused(m: MainMenuView, k: int, i: int, scene: MenuScene, pressed: Pressed)
    requires
        focused(m, k),
        0 <= i < 5,
        m.buttons[i].was_disabled ==> !m.buttons[i].is_scene_default || scene != MenuScene::MainMenu,
    ensures
        ({
            let n = m.updated(i, scene, pressed);
            if scene != MenuScene::MainMenu || i != k || !m.buttons[k].is_selected {
                focused(n, k)
            } else if pressed.down {
                focused(n, below(k))
            } else if pressed.up {
                focused(n, above(k))
            } else if pressed.select {
                unfocused(n)
            } else {
                focused(n, k)
            }
        }),
{
    let n = m.updated(i, scene, pressed);
    let moves = scene == MenuScene::MainMenu && i == k && m.buttons[k].is_selected;
    if !moves {
        if scene == MenuScene::MainMenu {
            let a = m.entered(i).with_disabled(i, false);
            if i != k {
                assert(idle(m, i));
            }
            assert(a.handed_on(i, pressed) == a);
            assert(a.waiting == m.waiting);
        }
        assert forall|j: int| 0 <= j < 5 && j != k implies #[trigger] idle(n, j) by {
            assert(idle(m, j));
        }
        assert(focused(n, k));
    } else {
        let a = m.entered(k).with_disabled(k, false);
        assert(a.waiting == m.waiting);
        let b = a.handed_on(k, pressed);
        if pressed.down || pressed.up {
            let t = if pressed.down {
                below(k)
            } else {
                above(k)
            };
            assert(t != k && 0 <= t < 5);
            assert(idle(m, t));
            assert(b.waiting[k] =~= seq![MainMenuButtonEvent::Unselect]);
            assert(b.waiting[t] =~= seq![MainMenuButtonEvent::Select]);
            assert(n == b.told(k));
            assert forall|j: int| 0 <= j < 5 && j != t implies #[trigger] idle(n, j) by {
                if j != k {
                    assert(idle(m, j));
                }
            }
            assert(focused(n, t));
        } else if pressed.select {
            assert(b.waiting[k] =~= seq![MainMenuButtonEvent::Unselect]);
            assert forall|j: int| 0 <= j < 5 implies #[trigger] idle(n, j) by {
                if j != k {
                    assert(idle(m, j));
                }
            }
        } else {
            assert(n == a);
            assert forall|j: int| 0 <= j < 5 && j != k implies #[trigger] idle(n, j) by {
                assert(idle(m, j));
            }
        }
    }
}

/// When the main menu comes back, its default button is selected and no other one is.
pub proof fn law_focus_returns(m: MainMenuView, i: int, pressed: Pressed)
    requires
        unfocused(m),
        0 <= i < 5,
        m.buttons[i].was_disabled && m.buttons[i].is_scene_default,
    ensures
        focused(m.updated(i, MenuScene::MainMenu, pressed), i),
        m.updated(i, MenuScene::MainMenu, pressed).buttons[i].is_selected,
        m.shown(i, MenuScene::MainMenu, pressed) == Some(true),
{
    let n = m.updated(i, MenuScene::MainMenu, pressed);
    assert(idle(m, i));
    assert(m.entered(i).waiting[i] =~= seq![MainMenuButtonEvent::Select]);
    assert forall|j: int| 0 <= j < 5 && j != i implies #[trigger] idle(n, j) by {
        assert(idle(m, j));
    }
}

/// Below a button is the next one, and the first below the last. Above a button is the one before, and the
/// last above the first. Going up undoes going down.
pub proof fn law_neighbours(k: int)
    requires
        0 <= k < 5,
    ensures
        k < 4 ==> below(k) == k + 1,
        k == 4 ==> below(k) == 0,
        k > 0 ==> above(k) == k - 1,
        k == 0 ==> above(k) == 4,
        0 <= below(k) < 5,
        above(below(k)) == k,
        below(above(k)) == k,
        below(k) != k,
        below(below(below(below(below(k))))) == k,
{
}

/// A controller reports a button exactly if its field for it is set.
pub proof fn law_pad_reports(pad: Pad)
    ensures
        pad.spec_reports(Button::Up) == pad.up,
        pad.spec_reports(Button::Down) == pad.down,
        pad.spec_reports(Button::Right) == pad.right,
        pad.spec_reports(Button::Left) == pad.left,
        pad.spec_reports(Button::Accept) == pad.select,
        pad.spec_reports(Button::Cancel) == pad.cancel,
        pad.spec_reports(Button::ShoulderR) == pad.shoulder_r,
        pad.spec_reports(Button::ShoulderL) == pad.shoulder_l,
        pad.spec_reports(Button::ShoulderRDown) == pad.shoulder_r_down,
        pad.spec_reports(Button::ShoulderLDown) == pad.shoulder_l_down,
{
}

/// A button that one controller reports is reported by all of them together, and one that none reports is
/// not. The main menu cares for up, down and accepting.
pub proof fn law_any_controller(controller: &VirtualController, button: Button, i: int)
    ensures
        0 <= i < controller.pads@.len() && controller.pads@[i].spec_reports(button) ==> controller.any(button),
        (forall|j: int|
            0 <= j < controller.pads@.len() ==> !(#[trigger] controller.pads@[j]).spec_reports(button))
            ==> !controller.any(button),
        controller.pressed().up == controller.any(Button::Up),
        controller.pressed().down == controller.any(Button::Down),
        controller.pressed().select == controller.any(Button::Accept),
{
}

/// Showing a scene shows that scene and keeps the menu open or closed as it was. Playing closes the menu, and
/// quitting ends the program. Neither changes the scene.
pub proof fn law_menu_events(menu: Menu)
    ensures
        menu.after(RootEvent::ShowMainMenu) == (Menu { scene: MenuScene::MainMenu, ..menu }),
        menu.after(RootEvent::ShowMods) == (Menu { scene: MenuScene::Mods, ..menu }),
        menu.after(RootEvent::ShowSettings) == (Menu { scene: MenuScene::Settings, ..menu }),
        menu.after(RootEvent::ShowUpdate) == (Menu { scene: MenuScene::Update, ..menu }),
        menu.after(RootEvent::Play) == (Menu { should_shut_down: true, ..menu }),
        menu.after(RootEvent::Quit) == menu,
        forall|event: RootEvent| #[trigger] action_of(event) == RootAction::Exit <==> event == RootEvent::Quit,
        forall|event: RootEvent| #[trigger] action_of(event) == RootAction::Close <==> event == RootEvent::Play,
        forall|event: RootEvent| #[trigger]
            action_of(event) matches RootAction::Show(scene) ==> menu.after(event) == (Menu {
                scene,
                ..menu
            }),
{
}

/// Events are handled in their order, each one exactly once: those that come last decide on the scene, and
/// the menu closes if any of them asks for it.
pub proof fn law_events_in_order(menu: Menu, events: Seq<RootEvent>, event: RootEvent)
    ensures
        menu.after_all(events.push(event)) == menu.after_all(events).after(event),
        menu.after_all(events).should_shut_down <==> menu.should_shut_down || events.contains(RootEvent::Play),
    decreases events.len(),
{
    let all = events.push(event);
    if events.len() == 0 {
        assert(all.drop_first() =~= Seq::empty());
        assert(menu.after(event).after_all(Seq::empty()) == menu.after(event));
    } else {
        let rest = events.drop_first();
        assert(all.drop_first() =~= rest.push(event));
        law_events_in_order(menu.after(events[0]), rest, event);
        if events.contains(RootEvent::Play) {
            let i = events.index_of(RootEvent::Play);
            if i > 0 {
                assert(rest[i - 1] == RootEvent::Play);
            }
        }
        if rest.contains(RootEvent::Play) {
            let i = rest.index_of(RootEvent::Play);
            assert(events[i + 1] == RootEvent::Play);
        }
    }
}

/// Each button of the main menu does what its label says.
pub proof fn law_buttons(i: int)
    requires
        0 <= i < 5,
    ensures
        i == 0 ==> button_label(i) == "Play"@ && button_event(i) == RootEvent::Play,
        i == 1 ==> button_label(i) == "Mods"@ && button_event(i) == RootEvent::ShowMods,
        i == 2 ==> button_label(i) == "Settings"@ && button_event(i) == RootEvent::ShowSettings,
        i == 3 ==> button_label(i) == "Update"@ && button_event(i) == RootEvent::ShowUpdate,
        i == 4 ==> button_label(i) == "Quit"@ && button_event(i) == RootEvent::Quit,
        i == 0 ==> button_name(i) == "main_menu_btn_play"@ && button_mark(i) == "category/icon/mark_play"@,
        i == 1 ==> button_name(i) == "main_menu_btn_mods"@ && button_mark(i) == "category/icon/mark_mods"@,
        i == 2 ==> button_name(i) == "main_menu_btn_settings"@ && button_mark(i)
            == "category/icon/mark_settings"@,
        i == 3 ==> button_name(i) == "main_menu_btn_update"@ && button_mark(i)
            == "category/icon/mark_update"@,
        i == 4 ==> button_name(i) == "main_menu_btn_quit"@ && button_mark(i) == "category/icon/mark_quit"@,
{
}

/// The button that is selected sends its event when accepting is pressed in the main menu and neither up nor
/// down is. No other button sends any, and none does in another scene.
pub proof fn law_accepts(m: MainMenuView, k: int, i: int, scene: MenuScene, pressed: Pressed)
    requires
        focused(m, k),
        0 <= i < 5,
    ensures
        accepts(m.buttons[i], scene, pressed) <==> i == k && m.buttons[k].is_selected && scene
            == MenuScene::MainMenu && pressed.select && !pressed.up && !pressed.down,
{
    if i != k {
        assert(idle(m, i));
    }
}

/// A button changes its looks exactly if the update selects it or takes the selection away from it, or if it
/// is told again what it is.
pub proof fn law_shown_button(m: MainMenuView, k: int, i: int, scene: MenuScene, pressed: Pressed)
    requires
        focused(m, k),
        0 <= i < 5,
        m.buttons[i].was_disabled ==> !m.buttons[i].is_scene_default,
    ensures
        ({
            let n = m.updated(i, scene, pressed);
            &&& m.shown(i, scene, pressed) matches Some(on) ==> n.buttons[i].is_selected == on
                && m.buttons[i].is_selected != on
            &&& m.shown(i, scene, pressed) is None ==> n.buttons[i].is_selected == m.buttons[i].is_selected
            &&& forall|j: int| 0 <= j < 5 && j != i ==> #[trigger] n.buttons[j] == m.buttons[j]
        }),
{
    if i != k {
        assert(idle(m, i));
    }
    let a = m.entered(i).with_disabled(i, false);
    if scene == MenuScene::MainMenu && i == k && m.buttons[k].is_selected {
        let b = a.handed_on(k, pressed);
        law_neighbours(k);
        if pressed.down || pressed.up || pressed.select {
            assert(b.waiting[k][0] == MainMenuButtonEvent::Unselect);
        }
    }
}

} // verus!
