use stratus::fixes::{colors_to_load, inkling_color, next_color, prev_color, PortraitLoader};
use stratus::kirby_copy::{entry_for, moved_address, Claim, CopySlots, COSTUME_INFO_SIZE, SLOT_COUNT};
use stratus::logger::{log_line, trim_prefix, Level, NxKernelLogger};
use stratus::menu::{
    button_face, controller_ports, icon_turn, scene_node, LocalChannel, MainMenu, Menu, MenuScene, Pad,
    RootAction, RootEvent, VirtualController, BUTTON_COUNT,
};
use stratus::mods_list::{default_entries, number_text, page_text, ModListEntry, ModsAction, ModsList};

fn pad() -> Pad {
    Pad {
        up: false,
        down: false,
        right: false,
        left: false,
        select: false,
        cancel: false,
        shoulder_r: false,
        shoulder_l: false,
        shoulder_r_down: false,
        shoulder_l_down: false,
    }
}

fn pressing(button: &str) -> VirtualController {
    let mut p = pad();
    match button {
        "up" => p.up = true,
        "down" => p.down = true,
        "select" => p.select = true,
        "cancel" => p.cancel = true,
        "r" => p.shoulder_r = true,
        "l" => p.shoulder_l = true,
        "r_down" => p.shoulder_r_down = true,
        "l_down" => p.shoulder_l_down = true,
        "right" => p.right = true,
        "left" => p.left = true,
        _ => {}
    }
    VirtualController { pads: vec![pad(), p] }
}

#[test]
fn a_button_is_pressed_if_it_is_on_any_controller() {
    let c = pressing("down");
    assert!(c.down());
    assert!(!c.up() && !c.left() && !c.right() && !c.select() && !c.cancel());
    assert!(pressing("left").left() && pressing("right").right());
    assert!(pressing("r").shoulder_r() && !pressing("r").shoulder_r_down());
    assert!(pressing("l_down").shoulder_l_down() && !pressing("l_down").shoulder_l());
    assert!(!VirtualController { pads: Vec::new() }.down());
    assert_eq!(controller_ports(), vec![0x20, 0x10, 0, 1, 2, 3, 4, 5, 6, 7]);
}

#[test]
fn events_come_out_in_the_order_they_went_in() {
    let mut channel: LocalChannel<u32> = LocalChannel::new();
    assert_eq!(channel.recv(), None);
    channel.send(1);
    channel.send(2);
    assert_eq!(channel.recv(), Some(1));
    assert_eq!(channel.recv(), Some(2));
    assert_eq!(channel.recv(), None);
}

fn update_all(
    menu: &mut MainMenu,
    scene: MenuScene,
    controller: &VirtualController,
    root: &mut LocalChannel<RootEvent>,
) -> Vec<Option<bool>> {
    (0..BUTTON_COUNT).map(|i| menu.update(i, scene, controller, root)).collect()
}

#[test]
fn selection_moves_through_the_main_menu() {
    let mut menu = MainMenu::new();
    let mut root = LocalChannel::new();
    let none = pressing("");
    let scene = MenuScene::MainMenu;
    assert_eq!(
        update_all(&mut menu, scene, &none, &mut root),
        vec![Some(true), None, None, None, None]
    );
    assert_eq!(
        update_all(&mut menu, scene, &pressing("down"), &mut root),
        vec![Some(false), Some(true), None, None, None]
    );
    // Going up reaches a button that was updated before, so it is selected one frame later.
    assert_eq!(
        update_all(&mut menu, scene, &pressing("up"), &mut root),
        vec![None, Some(false), None, None, None]
    );
    assert_eq!(
        update_all(&mut menu, scene, &none, &mut root),
        vec![Some(true), None, None, None, None]
    );
    assert_eq!(
        update_all(&mut menu, scene, &pressing("up"), &mut root),
        vec![Some(false), None, None, None, Some(true)]
    );
    assert_eq!(root.recv(), None);
    assert_eq!(
        update_all(&mut menu, scene, &pressing("select"), &mut root),
        vec![None, None, None, None, Some(false)]
    );
    assert_eq!(root.recv(), Some(RootEvent::Quit));
    assert_eq!(root.recv(), None);
}

#[test]
fn the_default_button_is_selected_when_the_menu_comes_back() {
    let mut menu = MainMenu::new();
    let mut root = LocalChannel::new();
    let none = pressing("");
    update_all(&mut menu, MenuScene::MainMenu, &none, &mut root);
    update_all(&mut menu, MenuScene::MainMenu, &pressing("down"), &mut root);
    update_all(&mut menu, MenuScene::MainMenu, &pressing("select"), &mut root);
    assert_eq!(root.recv(), Some(RootEvent::ShowMods));
    assert_eq!(update_all(&mut menu, MenuScene::Mods, &pressing("down"), &mut root), vec![None; 5]);
    assert_eq!(
        update_all(&mut menu, MenuScene::MainMenu, &none, &mut root),
        vec![Some(true), None, None, None, None]
    );
}

#[test]
fn faces_of_the_buttons() {
    let labels: Vec<&str> = (0..BUTTON_COUNT).map(|i| button_face(i).label).collect();
    assert_eq!(labels, vec!["Play", "Mods", "Settings", "Update", "Quit"]);
    assert_eq!(button_face(0).event, RootEvent::Play);
    assert_eq!(button_face(3).name, "main_menu_btn_update");
    assert_eq!(button_face(4).mark, "category/icon/mark_quit");
}

#[test]
fn events_of_the_menu_are_handled_in_order() {
    let mut menu = Menu::new();
    let mut root = LocalChannel::new();
    root.send(RootEvent::ShowMods);
    root.send(RootEvent::ShowSettings);
    root.send(RootEvent::Play);
    root.send(RootEvent::Quit);
    root.send(RootEvent::ShowUpdate);
    root.send(RootEvent::ShowMainMenu);
    assert_eq!(
        menu.handle_all(&mut root),
        vec![
            RootAction::Show(MenuScene::Mods),
            RootAction::Show(MenuScene::Settings),
            RootAction::Close,
            RootAction::Exit,
            RootAction::Show(MenuScene::Update),
            RootAction::Show(MenuScene::MainMenu),
        ]
    );
    assert_eq!(menu.scene, MenuScene::MainMenu);
    assert!(menu.should_shut_down);
    assert_eq!(scene_node(MenuScene::Settings), "Stratus/Settings");
}

#[test]
fn the_icon_turns_while_a_shoulder_is_held() {
    assert_eq!(icon_turn(MenuScene::MainMenu, &pressing("r_down")), Some(3));
    assert_eq!(icon_turn(MenuScene::MainMenu, &pressing("l_down")), Some(-3));
    assert_eq!(icon_turn(MenuScene::MainMenu, &pressing("")), None);
    assert_eq!(icon_turn(MenuScene::Mods, &pressing("r_down")), None);
    let mut both = pressing("r_down");
    both.pads[0].shoulder_l_down = true;
    assert_eq!(icon_turn(MenuScene::MainMenu, &both), Some(0));
}

fn places(list: &mut ModsList, button: &str, times: usize) -> Vec<(usize, usize)> {
    let mut root = LocalChannel::new();
    (0..times)
        .map(|_| {
            list.update(MenuScene::Mods, &pressing(button), &mut root);
            (list.current_page, list.current_local)
        })
        .collect()
}

#[test]
fn the_cursor_goes_down_and_round() {
    let mut list = ModsList::new(default_entries());
    assert_eq!(list.entries.len(), 10);
    assert_eq!(places(&mut list, "", 1), vec![(0, 0)]);
    assert_eq!(
        places(&mut list, "down", 11),
        vec![
            (0, 1),
            (0, 2),
            (0, 3),
            (0, 4),
            (0, 5),
            (1, 0),
            (1, 1),
            (1, 2),
            (1, 3),
            (0, 0),
            (0, 1)
        ]
    );
    assert_eq!(places(&mut list, "up", 3), vec![(0, 0), (1, 3), (1, 2)]);
}

#[test]
fn pages_turn_and_the_row_is_kept_where_it_can_be() {
    let mut list = ModsList::new(default_entries());
    places(&mut list, "", 1);
    assert_eq!(places(&mut list, "up", 1), vec![(1, 3)]);
    places(&mut list, "down", 6);
    assert_eq!(places(&mut list, "r", 1), vec![(1, 3)]);
    assert_eq!(places(&mut list, "r", 1), vec![(0, 3)]);
    assert_eq!(places(&mut list, "l", 1), vec![(1, 3)]);
}

#[test]
fn what_is_shown_when_the_list_is_entered() {
    let mut list = ModsList::new(default_entries());
    let mut root = LocalChannel::new();
    let actions = list.update(MenuScene::Mods, &pressing(""), &mut root);
    assert_eq!(actions.len(), 9);
    assert_eq!(actions[0], ModsAction::PageText { page: 0, page_count: 2 });
    assert_eq!(actions[6], ModsAction::StartRow { row: 5, entry: 5 });
    assert_eq!(actions[7], ModsAction::ShowInfo { entry: 0 });
    assert_eq!(actions[8], ModsAction::EnterRow { row: 0, on: true });
    assert_eq!(
        list.update(MenuScene::Mods, &pressing("down"), &mut root),
        vec![
            ModsAction::LeaveRow { row: 0 },
            ModsAction::ShowInfo { entry: 1 },
            ModsAction::EnterRow { row: 1, on: true }
        ]
    );
}

#[test]
fn what_is_shown_when_a_page_is_turned() {
    let mut list = ModsList::new(default_entries());
    let mut root = LocalChannel::new();
    list.update(MenuScene::Mods, &pressing(""), &mut root);
    let actions = list.update(MenuScene::Mods, &pressing("r"), &mut root);
    assert_eq!(
        actions,
        vec![
            ModsAction::PageText { page: 1, page_count: 2 },
            ModsAction::ShowRow { row: 0, entry: 6, on: true },
            ModsAction::ShowRow { row: 1, entry: 7, on: true },
            ModsAction::ShowRow { row: 2, entry: 8, on: true },
            ModsAction::ShowRow { row: 3, entry: 9, on: true },
            ModsAction::HideRow { row: 4 },
            ModsAction::HideRow { row: 5 },
            ModsAction::ShowInfo { entry: 6 },
            ModsAction::EnterRow { row: 0, on: true },
        ]
    );
}

#[test]
fn accepting_a_mod_switches_it() {
    let mut list = ModsList::new(default_entries());
    let mut root = LocalChannel::new();
    list.update(MenuScene::Mods, &pressing(""), &mut root);
    let actions = list.update(MenuScene::Mods, &pressing("select"), &mut root);
    assert_eq!(actions[1], ModsAction::EnterRow { row: 0, on: false });
    assert!(!list.entries[0].is_enabled && list.entries[1].is_enabled);
    list.update(MenuScene::Mods, &pressing("select"), &mut root);
    assert!(list.entries[0].is_enabled);
}

#[test]
fn leaving_the_list_and_coming_back_starts_at_the_top() {
    let mut list = ModsList::new(default_entries());
    let mut root = LocalChannel::new();
    list.update(MenuScene::Mods, &pressing(""), &mut root);
    list.update(MenuScene::Mods, &pressing("down"), &mut root);
    assert!(list.update(MenuScene::Mods, &pressing("cancel"), &mut root).is_empty());
    assert_eq!(root.recv(), Some(RootEvent::ShowMainMenu));
    assert!(list.update(MenuScene::MainMenu, &pressing(""), &mut root).is_empty());
    assert!(list.was_disabled_last);
    list.update(MenuScene::Mods, &pressing(""), &mut root);
    assert_eq!((list.current_page, list.current_local), (0, 0));
}

#[test]
fn there_is_no_place_in_an_empty_list_or_behind_a_full_page() {
    let empty = ModsList::new(Vec::new());
    assert_eq!(empty.next_place(&pressing("")), None);
    let entries = (0..6).map(|i| ModListEntry::new(format!("{i}"))).collect();
    let full = ModsList::new(entries);
    assert_eq!(full.next_place(&pressing("")), Some((0, 0)));
    assert_eq!(full.next_place(&pressing("down")), Some((0, 1)));
    assert_eq!(full.next_place(&pressing("up")), None);
    assert_eq!(full.next_place(&pressing("r")), None);
}

#[test]
fn texts_of_the_list() {
    assert_eq!(page_text(0, 2), "Mods (1/2)");
    assert_eq!(page_text(9, 120), "Mods (10/120)");
    assert_eq!(number_text(9, 10), "10/10");
    let mut entry = ModListEntry::zip(String::from("x"));
    assert_eq!(entry.category_text(), "Compressed Zip File");
    assert_eq!(ModListEntry::new(String::from("x")).category_text(), "Mod Folder");
    assert_eq!(entry.info_text(), "Authors: ???\nVersion: ???");
    assert_eq!(entry.description_text(), "");
    entry.authors = vec![String::from("a"), String::from("b"), String::from("c")];
    entry.version = Some(String::from("1.0"));
    entry.description = Some(String::from("text"));
    assert_eq!(entry.info_text(), "Authors: a, b, c\nVersion: 1.0");
    assert_eq!(entry.description_text(), "text");
}

#[test]
fn copy_slots_are_claimed_found_and_released() {
    let mut slots = CopySlots::new();
    assert_eq!(slots.claim(1, 0x1000, 5, 7), Claim::NotNeeded);
    assert_eq!(slots.claim(1, 0x1000, 5, 8), Claim::Claimed(0));
    assert_eq!(slots.claim(1, 0x1000, 5, 8), Claim::Known);
    assert_eq!(slots.claim(1, 0x1000, 5, 9), Claim::Claimed(1));
    assert_eq!(slots.find(1, 5, 9), Some(1));
    assert_eq!(slots.find(1, 5, 10), None);
    assert_eq!(slots.get(0).assumed_ptr, 0x1000 + 8 + 8 * COSTUME_INFO_SIZE);
    let addresses: Vec<u64> = (0..SLOT_COUNT as u64).map(|i| 0x5000 + i * 0x1000).collect();
    assert_eq!(slots.owner_of(0x5000 - 8, &addresses), Some((0, Some(0x1000))));
    assert_eq!(slots.owner_of(0x5000, &addresses), None);
    assert!(!slots.release(0, 2));
    assert!(slots.release(0, 1));
    assert_eq!(slots.find(1, 5, 8), None);
    assert_eq!(slots.claim(2, 0x1000, 5, 8), Claim::Claimed(0));
}

#[test]
fn copy_slots_run_out() {
    let mut slots = CopySlots::new();
    for i in 0..SLOT_COUNT {
        assert_eq!(slots.claim(1, 0, 0, 8 + i as u64), Claim::Claimed(i));
    }
    assert_eq!(slots.claim(1, 0, 0, 100), Claim::Full);
}

#[test]
fn addresses_are_moved_into_a_slot() {
    assert_eq!(moved_address(0x1010, 0x1000, 0x9000), Some(0x9010));
    assert_eq!(moved_address(0x1000 + 0x2e7, 0x1000, 0x9000), Some(0x92e7));
    assert_eq!(moved_address(0x1000 + 0x2e8, 0x1000, 0x9000), None);
    assert_eq!(moved_address(0xFFF, 0x1000, 0x9000), None);
    assert_eq!(entry_for(0x1000 + 8 + 8 * 0x2e8, 8), Some(0x1000));
    assert_eq!(entry_for(7, 0), None);
}

#[test]
fn colors_go_round() {
    assert_eq!(colors_to_load(0, 8), vec![0, 1, 7]);
    assert_eq!(colors_to_load(7, 8), vec![7, 0, 6]);
    assert_eq!(next_color(3, 8), 4);
    assert_eq!(prev_color(next_color(7, 8), 8), 7);
}

#[test]
fn portraits_are_loaded_while_the_screen_is_open() {
    let mut loader = PortraitLoader::new();
    assert!(!loader.is_ready());
    loader.open(1, 2);
    assert!(loader.is_ready());
    loader.open(1, 0);
    assert!(!loader.is_ready());
    loader.open(1, 2);
    loader.close();
    assert!(!loader.is_ready());
    assert_eq!(inkling_color(&vec![3, 4], 1), Some(4));
    assert_eq!(inkling_color(&vec![3, 4], 2), None);
}

#[test]
fn messages_are_filtered_by_module() {
    let logger = NxKernelLogger::new().module("patching", Level::Trace).module("menu", Level::Error);
    assert!(logger.logs(Some("stratus::patching"), Level::Trace));
    assert!(logger.logs(Some("patching"), Level::Debug));
    assert!(!logger.logs(Some("stratus::menu"), Level::Warn));
    assert!(logger.logs(Some("stratus::menu"), Level::Error));
    assert!(logger.logs(Some("stratus::other"), Level::Info));
    assert!(!logger.logs(Some("stratus::other"), Level::Debug));
    assert!(logger.logs(None, Level::Warn));
    assert!(!logger.logs(None, Level::Trace));
    let logger = logger.module("menu", Level::Debug);
    assert!(logger.logs(Some("stratus::menu"), Level::Warn));
}

#[test]
fn lines_of_the_log() {
    assert_eq!(log_line(Level::Warn, "text"), "[WARN ]  text");
    assert_eq!(log_line(Level::Error, ""), "[ERROR]  ");
    assert_eq!(trim_prefix("aab", "a"), "b");
    assert_eq!(trim_prefix("aab", ""), "aab");
    assert_eq!(trim_prefix("", "a"), "");
}
