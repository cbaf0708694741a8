use demys::event::{EventReceiver, Uuid};
use demys::plot::Plot;
use demys::style::canvas::Canvas;
use demys::style::style::StyledText;
use demys::textedit::alert::Alert;
use demys::textedit::buffer::TextBuffer;
use demys::textedit::textwindow::{Mode, TextWindow};
use demys::window::command::Command;
use demys::window::fswindow::{DirectoryRep, FSWindow};
use demys::window::layout::{Grid, Layout, LayoutError, WindowSpace};
use demys::window::popup::{to_term_dim, to_term_pos, PopUp, PopUpDimensionOption, PopUpPositionOption};
use demys::window::tab::TabWindow;
use demys::window::window::{
    DirectoryEntry, IdMint, Key, Modifiers, TestWindow, Window, WindowEvent, WindowRequest,
    NESTING_LIMIT,
};
use demys::window::windowcontainer::OrderedWindowContainer;
use demys::window::windowmanager::WindowManager;

type Bus = EventReceiver<WindowRequest, Uuid>;

fn key(c: char) -> WindowEvent {
    WindowEvent::Input { key: Key::Char(c), modifiers: Modifiers::none() }
}

fn control(c: char) -> WindowEvent {
    WindowEvent::Input { key: Key::Char(c), modifiers: Modifiers::control() }
}

fn press(key: Key) -> WindowEvent {
    WindowEvent::Input { key, modifiers: Modifiers::none() }
}

fn kinds(polled: &[(Uuid, WindowRequest)]) -> Vec<String> {
    polled
        .iter()
        .map(|(_, r)| match r {
            WindowRequest::Redraw => "Redraw".to_string(),
            WindowRequest::Clear => "Clear".to_string(),
            WindowRequest::Cursor(_) => "Cursor".to_string(),
            WindowRequest::RemoveSelfWindow => "RemoveSelfWindow".to_string(),
            WindowRequest::RemoveSelfPopup => "RemoveSelfPopup".to_string(),
            WindowRequest::AddWindow(_) => "AddWindow".to_string(),
            WindowRequest::AddPopup(_) => "AddPopup".to_string(),
            WindowRequest::Command(c) => format!("Command({})", c),
            WindowRequest::OpenFile(p) => format!("OpenFile({})", p),
            WindowRequest::ListDirectory(p) => format!("ListDirectory({})", p),
            WindowRequest::Save { path, content } => {
                format!("Save({},{})", path, String::from_utf8_lossy(content))
            }
            WindowRequest::Nothing => "Nothing".to_string(),
        })
        .collect()
}

fn text_tab(focused: bool, mint: &mut IdMint) -> Window {
    let mut text = Window::Text(TextWindow::new(TextBuffer::new()));
    if focused {
        let mut nowhere = Bus::new();
        text.event(WindowEvent::Focus, &mut nowhere);
    }
    let mut tab = TabWindow::new();
    tab.add_window(text, mint);
    Window::Tab(tab)
}

fn text_of(manager: &WindowManager, place: usize) -> &TextWindow {
    match manager.get_container().get_from_order(place) {
        Some(Window::Tab(tab)) => match tab.get_container().get_from_order(0) {
            Some(Window::Text(text)) => text,
            _ => panic!("no text window in the tab"),
        },
        _ => panic!("no tab at this place"),
    }
}

#[test]
fn add_window() {
    let mut mint = IdMint::new();
    let mut container = OrderedWindowContainer::new();

    let window = TestWindow::new();
    let uuid = container.add_window(Window::Test(window), &mut mint);

    // one window in container
    assert_eq!(container.window_count(), 1);

    // window is returned on remove
    assert!(container.remove_window(uuid).is_some());

    // no windows now
    assert_eq!(container.window_count(), 0);
}

#[test]
fn adding_and_removing_leaves_the_order_as_it_was() {
    let mut mint = IdMint::new();
    let mut container = OrderedWindowContainer::new();
    let a = container.add_window(Window::Test(TestWindow::new()), &mut mint);
    let b = container.add_window(Window::Test(TestWindow::new()), &mut mint);
    container.set_current(1);
    let before = container.window_order();
    assert_eq!(before, vec![a, b]);

    let c = container.add_window(Window::Test(TestWindow::new()), &mut mint);
    assert_eq!(container.window_order(), vec![a, b, c]);
    assert!(container.remove_window(c).is_some());

    assert_eq!(container.window_order(), before);
    assert_eq!(container.get_current(), 1);
    assert!(container.remove_window(c).is_none());

    // a window at or before the one in front takes the index back with it
    assert!(container.remove_window(a).is_some());
    assert_eq!(container.window_order(), vec![b]);
    assert_eq!(container.get_current(), 0);
    assert!(container.remove_window(b).is_some());
    assert_eq!(container.get_current(), 0);
}

#[test]
fn control_l_puts_the_next_window_in_front() {
    let mut mint = IdMint::new();
    let mut bus = Bus::new();
    let mut manager = WindowManager::new();
    manager.init(bus.new_poster(&mut mint));
    manager.resize(Plot::new(24, 80));
    manager.add_window(text_tab(true, &mut mint), &mut mint);
    manager.add_window(text_tab(false, &mut mint), &mut mint);
    assert_eq!(manager.get_container().get_current(), 0);
    assert!(text_of(&manager, 0).is_focused());
    assert!(!text_of(&manager, 1).is_focused());

    manager.event(control('l'), &mut bus, &mut mint);

    assert_eq!(manager.get_container().get_current(), 1);
    assert!(!text_of(&manager, 0).is_focused());
    assert!(text_of(&manager, 1).is_focused());

    manager.event(control('l'), &mut bus, &mut mint);
    assert_eq!(manager.get_container().get_current(), 0);
    assert!(text_of(&manager, 0).is_focused());
}

#[test]
fn unsaved_text_asks_before_it_leaves() {
    let mut mint = IdMint::new();
    let mut bus = Bus::new();
    let mut text = TextWindow::new(TextBuffer::new());
    text.init(bus.new_poster(&mut mint));
    assert!(!text.is_saved());

    text.event(WindowEvent::Command("q".to_string()), &mut bus);
    let mut polled = bus.poll();
    assert_eq!(kinds(&polled), vec!["AddPopup", "Redraw"]);

    let mut alert = match polled.remove(0).1 {
        WindowRequest::AddPopup(Some(popup)) => match *popup {
            PopUp::Alert(alert) => alert,
            _ => panic!("not an alert"),
        },
        _ => panic!("no popup"),
    };
    assert_eq!(alert.options.len(), 3);
    assert_eq!(alert.options[0].label.get_text(), "Save");
    assert_eq!(alert.options[1].label.get_text(), "Discard");
    assert_eq!(alert.options[2].label.get_text(), "Go Back");
    assert_eq!(alert.content.get_text(), "Unsaved changes in [untitled].");

    let mut above = Bus::new();
    alert.init(above.new_poster(&mut mint));
    alert.event(press(Key::Right), &mut above);
    assert_eq!(alert.current, 1);
    assert!(above.poll().is_empty());
    alert.event(press(Key::Enter), &mut above);
    assert_eq!(kinds(&above.poll()), vec!["Command(q!)", "RemoveSelfPopup"]);

    text.event(WindowEvent::Command("q!".to_string()), &mut bus);
    assert_eq!(kinds(&bus.poll()), vec!["RemoveSelfWindow", "Redraw"]);
}

#[test]
fn quitting_an_unsaved_text_through_the_manager() {
    let mut mint = IdMint::new();
    let mut bus = Bus::new();
    let mut manager = WindowManager::new();
    manager.init(bus.new_poster(&mut mint));
    manager.resize(Plot::new(24, 80));
    manager.add_window(text_tab(true, &mut mint), &mut mint);

    // the command line takes the command
    manager.event(key(':'), &mut bus, &mut mint);
    assert_eq!(manager.get_container().popup_count(), 1);
    manager.event(key('q'), &mut bus, &mut mint);
    manager.event(press(Key::Enter), &mut bus, &mut mint);
    let processed = manager.collect_requests(&mut bus, &mut mint);
    let processed: Vec<(Uuid, WindowRequest)> =
        processed.into_iter().map(|r| (Uuid(0), r)).collect();
    assert_eq!(
        kinds(&processed),
        vec!["Redraw", "Command(q)", "RemoveSelfPopup", "Redraw"]
    );
    assert_eq!(manager.get_container().popup_count(), 0);

    // the text window answered with a popup, which comes up through the tab
    manager.collect_requests(&mut bus, &mut mint);
    assert_eq!(manager.get_container().popup_count(), 1);
    assert_eq!(manager.get_container().window_count(), 1);

    // Discard
    manager.event(press(Key::Right), &mut bus, &mut mint);
    manager.event(press(Key::Enter), &mut bus, &mut mint);
    manager.collect_requests(&mut bus, &mut mint);
    assert_eq!(manager.get_container().popup_count(), 0);

    // the text window asked to be removed, and the tab with it
    manager.collect_requests(&mut bus, &mut mint);
    assert_eq!(manager.get_container().window_count(), 0);
    bus.poll();
    manager.collect_requests(&mut bus, &mut mint);
    assert!(kinds(&bus.poll()).contains(&"RemoveSelfWindow".to_string()));
}

#[test]
fn escape_and_control_end_end_the_program() {
    let mut mint = IdMint::new();
    let mut bus = Bus::new();
    let mut manager = WindowManager::new();
    manager.init(bus.new_poster(&mut mint));
    manager.add_window(text_tab(true, &mut mint), &mut mint);
    manager.event(press(Key::Esc), &mut bus, &mut mint);
    assert_eq!(kinds(&bus.poll()), vec!["RemoveSelfWindow"]);
    manager.event(
        WindowEvent::Input { key: Key::End, modifiers: Modifiers::control() },
        &mut bus,
        &mut mint);
    assert_eq!(kinds(&bus.poll()), vec!["RemoveSelfWindow"]);
    // in insert mode the window in front gets the key
    manager.event(key('i'), &mut bus, &mut mint);
    assert!(manager.input_bypass());
    manager.event(press(Key::Esc), &mut bus, &mut mint);
    assert!(!manager.input_bypass());
    bus.poll();
    manager.collect_requests(&mut bus, &mut mint);
    assert!(!kinds(&bus.poll()).contains(&"RemoveSelfWindow".to_string()));
}

#[test]
fn text_window_modes_and_keys() {
    let mut mint = IdMint::new();
    let mut bus = Bus::new();
    let mut text = TextWindow::new(TextBuffer::new());
    text.init(bus.new_poster(&mut mint));
    assert_eq!(text.get_mode(), Mode::Normal);
    assert!(!text.input_bypass());
    text.event(key('x'), &mut bus);
    assert_eq!(text.get_buffer().string(), "");
    text.event(key('i'), &mut bus);
    assert_eq!(text.get_mode(), Mode::Insert);
    assert!(text.input_bypass());
    for c in "ab".chars() {
        text.event(key(c), &mut bus);
    }
    text.event(press(Key::Enter), &mut bus);
    text.event(key('c'), &mut bus);
    text.event(key('d'), &mut bus);
    text.event(press(Key::Backspace), &mut bus);
    assert_eq!(text.get_buffer().string(), "ab\nc");
    text.event(control('z'), &mut bus);
    assert_eq!(text.get_buffer().string(), "ab\ncd");
    text.event(control('['), &mut bus);
    assert_eq!(text.get_mode(), Mode::Normal);
    text.event(key('k'), &mut bus);
    assert_eq!(text.get_buffer().get_cursor(), 2);
    text.event(key('h'), &mut bus);
    assert_eq!(text.get_buffer().get_cursor(), 1);
    text.event(key('l'), &mut bus);
    text.event(key('j'), &mut bus);
    assert_eq!(text.get_buffer().get_cursor(), 5);
    text.event(key('I'), &mut bus);
    assert_eq!(text.get_buffer().get_cursor(), 3);
    assert_eq!(text.get_mode(), Mode::Insert);
    text.event(press(Key::Esc), &mut bus);
    text.event(key('A'), &mut bus);
    assert_eq!(text.get_buffer().get_cursor(), 5);
    text.event(press(Key::Esc), &mut bus);
    text.event(key('k'), &mut bus);
    text.event(key('o'), &mut bus);
    assert_eq!(text.get_buffer().string(), "ab\n\ncd");
    assert_eq!(text.get_buffer().get_cursor(), 3);
    text.event(press(Key::Esc), &mut bus);
    text.event(key('a'), &mut bus);
    assert_eq!(text.get_buffer().get_cursor(), 4);
    text.event(press(Key::Esc), &mut bus);
    text.event(key('K'), &mut bus);
    assert_eq!(text.get_scroll(), 0);
    text.event(key('J'), &mut bus);
    text.event(key('J'), &mut bus);
    text.event(key('K'), &mut bus);
    assert_eq!(text.get_scroll(), 10);
    assert!(text.has_line_numbers());
    text.event(WindowEvent::Command("tl".to_string()), &mut bus);
    assert!(!text.has_line_numbers());
    assert_eq!(text.name(), "*[untitled]");
    assert!(kinds(&bus.poll()).iter().all(|k| k == "Redraw"));
}

#[test]
fn saving_posts_the_text_and_its_path() {
    let mut mint = IdMint::new();
    let mut bus = Bus::new();
    let mut text =
        TextWindow::from_content("a.txt".to_string(), "/tmp/a.txt".to_string(), "hi".to_string());
    text.init(bus.new_poster(&mut mint));
    assert!(text.is_saved());
    assert_eq!(text.name(), "a.txt");
    text.event(WindowEvent::Command("q".to_string()), &mut bus);
    assert_eq!(kinds(&bus.poll()), vec!["RemoveSelfWindow", "Redraw"]);
    text.event(key('i'), &mut bus);
    text.event(key('!'), &mut bus);
    assert!(!text.is_saved());
    bus.poll();
    text.event(WindowEvent::TryQuit, &mut bus);
    assert_eq!(kinds(&bus.poll()), vec!["AddPopup", "Redraw"]);
    text.event(WindowEvent::Command("wq".to_string()), &mut bus);
    assert_eq!(
        kinds(&bus.poll()),
        vec!["Save(/tmp/a.txt,hi!)", "RemoveSelfWindow", "Redraw"]
    );
    assert!(text.is_saved());
    let mut untitled = TextWindow::new(TextBuffer::new());
    untitled.init(bus.new_poster(&mut mint));
    untitled.event(WindowEvent::Command("w".to_string()), &mut bus);
    assert_eq!(kinds(&bus.poll()), vec!["Redraw"]);
    assert!(!untitled.is_saved());
}

#[test]
fn the_command_line_collects_a_command() {
    let mut mint = IdMint::new();
    let mut bus = Bus::new();
    let mut command = Command::new();
    command.init(bus.new_poster(&mut mint));
    command.event(press(Key::Backspace), &mut bus);
    for c in "wqx".chars() {
        command.event(key(c), &mut bus);
    }
    command.event(press(Key::Backspace), &mut bus);
    assert_eq!(kinds(&bus.poll()), vec!["Redraw"; 5]);
    command.event(press(Key::Enter), &mut bus);
    assert_eq!(kinds(&bus.poll()), vec!["Command(wq)", "RemoveSelfPopup", "Redraw"]);
    command.event(press(Key::Esc), &mut bus);
    assert_eq!(kinds(&bus.poll()), vec!["RemoveSelfPopup", "Redraw"]);
    let mut canvas = Canvas::new(Plot::new(1, 6));
    command.draw(&mut canvas);
    assert_eq!(canvas.get_text(), &b":wq   ".to_vec());
    assert!(command.local());
}

#[test]
fn an_alert_goes_round_its_answers() {
    let mut mint = IdMint::new();
    let mut bus = Bus::new();
    let mut alert = TextWindow::unsaved_popup("n");
    alert.init(bus.new_poster(&mut mint));
    alert.event(press(Key::Left), &mut bus);
    assert_eq!(alert.current, 2);
    alert.event(key(' '), &mut bus);
    assert_eq!(alert.current, 0);
    alert.event(press(Key::Enter), &mut bus);
    assert_eq!(kinds(&bus.poll()), vec!["Command(wq)", "RemoveSelfPopup"]);
    // what was posted is posted once
    alert.event(press(Key::Enter), &mut bus);
    assert_eq!(kinds(&bus.poll()), vec!["RemoveSelfPopup"]);
    let mut empty = Alert::new(StyledText::new("?".to_string()));
    empty.event(key('x'), &mut bus);
    assert_eq!(empty.current, 0);
    assert!(!empty.local());
    let mut canvas = Canvas::new(Plot::new(7, 30));
    alert.draw(&mut canvas);
    assert_eq!(&canvas.get_text()[0..3], b"@--");
}

fn tree() -> DirectoryRep {
    let mut root = DirectoryRep::new("root".to_string(), "/root".to_string(), true);
    root.open(vec![
        DirectoryEntry { name: "src".to_string(), path: "/root/src".to_string(), is_dir: true },
        DirectoryEntry { name: "a.txt".to_string(), path: "/root/a.txt".to_string(), is_dir: false },
    ]);
    root.open_path(
        "/root/src",
        vec![DirectoryEntry {
            name: "lib.rs".to_string(),
            path: "/root/src/lib.rs".to_string(),
            is_dir: false,
        }],
    )
    .unwrap();
    root
}

#[test]
fn the_tree_is_walked_line_by_line() {
    let root = tree();
    assert_eq!(root.to_string(), "v root\n  v src\n    lib.rs\n  a.txt");
    assert_eq!(root.map_line_child(0).unwrap().name, "root");
    assert_eq!(root.map_line_child(1).unwrap().name, "src");
    assert_eq!(root.map_line_child(2).unwrap().name, "lib.rs");
    assert_eq!(root.map_line_child(3).unwrap().name, "a.txt");
    assert!(root.map_line_child(4).is_none());
    assert_eq!(root.get_child(1).unwrap().dir, "/root/a.txt");
    assert!(root.get_child(2).is_none());
    let mut closed = tree();
    assert_eq!(closed.toggle_line(1), Ok(false));
    assert_eq!(closed.to_string(), "v root\n  > src\n  a.txt");
    assert_eq!(closed.toggle_line(1), Ok(true));
    assert_eq!(closed.toggle_line(2), Ok(false));
    assert_eq!(closed.toggle_line(5), Err(2));
    closed.close();
    assert_eq!(closed.to_string(), "> root");
    assert!(closed.toggle());
    assert!(closed.open_path("/nowhere", Vec::new()).is_err());
}

#[test]
fn the_explorer_opens_files_and_asks_for_listings() {
    let mut mint = IdMint::new();
    let mut bus = Bus::new();
    let mut explorer = FSWindow::new(tree());
    explorer.init(bus.new_poster(&mut mint));
    assert_eq!(explorer.name(), "Explorer");
    explorer.event(key('k'), &mut bus);
    assert_eq!(explorer.get_line(), 0);
    for _ in 0..5 {
        explorer.event(key('j'), &mut bus);
    }
    assert_eq!(explorer.get_line(), 3);
    bus.poll();
    explorer.event(press(Key::Enter), &mut bus);
    assert_eq!(kinds(&bus.poll()), vec!["OpenFile(/root/a.txt)", "Redraw"]);
    explorer.event(key('k'), &mut bus);
    explorer.event(key('k'), &mut bus);
    explorer.event(press(Key::Enter), &mut bus);
    assert_eq!(explorer.get_dir().to_string(), "v root\n  > src\n  a.txt");
    assert_eq!(kinds(&bus.poll()), vec!["Redraw", "Redraw", "Redraw"]);
    explorer.event(press(Key::Enter), &mut bus);
    assert_eq!(kinds(&bus.poll()), vec!["ListDirectory(/root/src)", "Redraw"]);
    explorer.event(
        WindowEvent::Listing { path: "/root/src".to_string(), entries: Vec::new() },
        &mut bus,
    );
    assert_eq!(explorer.get_dir().to_string(), "v root\n  v src\n\n  a.txt");
    let mut canvas = Canvas::new(Plot::new(5, 8));
    explorer.draw(&mut canvas);
    assert_eq!(&canvas.get_text()[0..16], b"v root    v src ");
}

#[test]
fn a_tab_window_shows_one_window_at_a_time() {
    let mut mint = IdMint::new();
    let mut bus = Bus::new();
    let mut tab = TabWindow::new();
    tab.init(bus.new_poster(&mut mint));
    let first = tab.add_window(Window::Test(TestWindow::new()), &mut mint);
    let second = tab.add_window(Window::Test(TestWindow::new()), &mut mint);
    assert_ne!(first, second);
    assert_eq!(tab.get_container().get_current(), 0);
    tab.event(press(Key::Tab), &mut bus);
    assert_eq!(tab.get_container().get_current(), 1);
    tab.event(press(Key::Tab), &mut bus);
    assert_eq!(tab.get_container().get_current(), 0);
    assert_eq!(kinds(&bus.poll()), vec!["Redraw", "Redraw"]);

    // Ctrl-Right hands the window that is shown to the parent
    tab.event(
        WindowEvent::Input { key: Key::Right, modifiers: Modifiers::control() },
        &mut bus);
    assert_eq!(tab.get_container().window_order(), vec![second]);
    let mut polled = bus.poll();
    assert_eq!(kinds(&polled), vec!["AddWindow", "Redraw"]);
    match polled.remove(0).1 {
        WindowRequest::AddWindow(Some(window)) => match *window {
            Window::Tab(new_tab) => assert_eq!(new_tab.get_container().window_count(), 1),
            _ => panic!("not a tab"),
        },
        _ => panic!("no window"),
    }

    // a typed character goes to the window that is shown, which asks to be drawn
    tab.event(key('z'), &mut bus);
    tab.tick(&mut bus, &mut mint);
    assert_eq!(kinds(&bus.poll()), vec!["Redraw", "Redraw"]);

    assert!(tab.remove_window(second).is_some());
    tab.tick(&mut bus, &mut mint);
    assert_eq!(kinds(&bus.poll()), vec!["RemoveSelfWindow"]);

    let mut canvas = Canvas::new(Plot::new(3, 14));
    let mut shown = TabWindow::new();
    shown.add_window(Window::Fs(FSWindow::new(tree())), &mut mint);
    shown.draw(&mut canvas);
    assert_eq!(&canvas.get_text()[0..14], b"| Explorer |  ");
    assert_eq!(&canvas.get_text()[14..20], b"v root");
    shown.event(key('\''), &mut bus);
    let mut bare = Canvas::new(Plot::new(3, 14));
    shown.draw(&mut bare);
    assert_eq!(&bare.get_text()[0..6], b"v root");
}

#[test]
fn the_manager_draws_windows_borders_and_popups() {
    let mut mint = IdMint::new();
    let mut bus = Bus::new();
    let mut manager = WindowManager::new();
    manager.set_dir("/root".to_string());
    manager.init(bus.new_poster(&mut mint));
    manager.resize(Plot::new(6, 21));
    manager.add_window(Window::Test(TestWindow::new()), &mut mint);
    manager.add_window(Window::Test(TestWindow::new()), &mut mint);
    assert_eq!(
        manager.get_layout().get_windows(),
        &vec![
            WindowSpace { dim: Plot::new(6, 10), start: Plot::new(0, 0) },
            WindowSpace { dim: Plot::new(6, 10), start: Plot::new(0, 11) },
        ]
    );
    manager.event(key(':'), &mut bus, &mut mint);
    let mut canvas = Canvas::new(Plot::new(6, 21));
    manager.draw(&mut canvas);
    let text = canvas.get_text();
    assert_eq!(&text[0..21], b"(6,10)    #(6,10)    ");
    assert_eq!(text[5 * 21], b':');
    assert_eq!(text[3 * 21 + 10], b'#');

    // the command x opens an explorer in a tab of its own
    manager.event(key('x'), &mut bus, &mut mint);
    manager.event(press(Key::Enter), &mut bus, &mut mint);
    manager.collect_requests(&mut bus, &mut mint);
    assert_eq!(manager.get_container().window_count(), 3);
    assert_eq!(manager.get_container().get_current(), 2);
    assert_eq!(manager.get_layout().get_windows().len(), 3);
    assert!(manager.remove_window(manager.get_container().window_order()[2]).is_some());
    assert_eq!(manager.get_layout().get_windows().len(), 2);
}

#[test]
fn a_grid_shares_the_screen_out() {
    let mut grid = Grid::new();
    let (windows, borders) = grid.generate(Plot::new(40, 100));
    assert_eq!(windows, vec![WindowSpace { dim: Plot::new(40, 100), start: Plot::new(0, 0) }]);
    assert!(borders.is_empty());

    grid.split_major();
    assert_eq!(grid.split_minor(0), Ok(()));
    assert_eq!(grid.split_minor(0), Ok(()));
    assert_eq!(grid.split_minor(2), Err(LayoutError::NoSuchStrip));
    assert_eq!(grid.window_count(), 4);
    let (windows, borders) = grid.generate(Plot::new(41, 100));
    assert_eq!(
        windows,
        vec![
            WindowSpace { dim: Plot::new(20, 32), start: Plot::new(0, 0) },
            WindowSpace { dim: Plot::new(20, 32), start: Plot::new(0, 33) },
            WindowSpace { dim: Plot::new(20, 32), start: Plot::new(0, 66) },
            WindowSpace { dim: Plot::new(20, 100), start: Plot::new(21, 0) },
        ]
    );
    assert_eq!(borders.len(), 3);
    assert!(borders[0].vertical && borders[1].vertical && !borders[2].vertical);
    assert_eq!(borders[2].start, Plot::new(20, 0));
    assert_eq!(borders[2].length, 100);
    grid.join_minor(0);
    assert_eq!(grid.window_count(), 3);
    // too small for the borders
    assert!(grid.generate(Plot::new(0, 100)).0.is_empty());
    let mut layout = Layout::new(Plot::new(10, 10));
    layout.set_dim(Plot::new(5, 7));
    assert_eq!(layout.get_dim(), Plot::new(5, 7));
    assert_eq!(layout.get_windows().len(), 1);
    assert!(layout.get_borders().is_empty());
}

#[test]
fn popups_are_placed_on_the_screen() {
    assert_eq!(to_term_pos(24, PopUpPositionOption::Centered(0)), 12);
    assert_eq!(to_term_pos(24, PopUpPositionOption::Centered(-3)), 9);
    assert_eq!(to_term_pos(24, PopUpPositionOption::Centered(-30)), 0);
    assert_eq!(to_term_pos(24, PopUpPositionOption::Centered(30)), 24);
    assert_eq!(to_term_pos(24, PopUpPositionOption::NegativeBound(5)), 5);
    assert_eq!(to_term_pos(24, PopUpPositionOption::PositiveBound(1)), 23);
    assert_eq!(to_term_pos(24, PopUpPositionOption::PositiveBound(50)), 0);
    assert_eq!(to_term_dim(80, PopUpDimensionOption::Fixed(7)), 7);
    assert_eq!(to_term_dim(80, PopUpDimensionOption::Percent(100)), 80);
    assert_eq!(to_term_dim(80, PopUpDimensionOption::Percent(50)), 40);
    assert_eq!(to_term_dim(333, PopUpDimensionOption::Percent(33)), 109);
}

#[test]
fn a_test_window_shows_its_size_and_what_was_typed() {
    let mut mint = IdMint::new();
    let mut bus = Bus::new();
    let mut window = TestWindow::new();
    window.init(bus.new_poster(&mut mint));
    window.event(key('h'), &mut bus);
    window.event(key('i'), &mut bus);
    window.event(WindowEvent::Resize(Plot::new(2, 8)), &mut bus);
    window.event(WindowEvent::Focus, &mut bus);
    assert_eq!(kinds(&bus.poll()), vec!["Redraw", "Redraw", "Redraw"]);
    let mut canvas = Canvas::new(Plot::new(2, 8));
    window.draw(&mut canvas);
    assert_eq!(canvas.get_text(), &b"(2,8)   hi      ".to_vec());
}

#[test]
fn a_text_window_draws_numbered_lines_and_its_last_row() {
    let mut mint = IdMint::new();
    let mut bus = Bus::new();
    let mut text = TextWindow::new(TextBuffer::new());
    text.init(bus.new_poster(&mut mint));
    text.event(WindowEvent::Focus, &mut bus);
    text.event(key('i'), &mut bus);
    for c in "ab".chars() {
        text.event(key(c), &mut bus);
    }
    text.event(press(Key::Enter), &mut bus);
    text.event(key('c'), &mut bus);
    text.event(press(Key::Esc), &mut bus);
    let mut canvas = Canvas::new(Plot::new(4, 24));
    text.draw(&mut canvas);
    let cells = canvas.get_text();
    assert_eq!(&cells[0..24], b"1  ab                   ");
    assert_eq!(&cells[24..48], b"2  c                    ");
    assert_eq!(&cells[48..72], b"                        ");
    assert_eq!(&cells[72..96], b"NORMAL      *[untitled] ");
    // the cursor stands behind the c, three cells to the right for the gutter
    let cursor = canvas.get_regions().last().unwrap();
    assert_eq!((cursor.start, cursor.end), (24 + 4, 24 + 5));

    text.event(WindowEvent::Command("tl".to_string()), &mut bus);
    text.event(key('i'), &mut bus);
    let mut bare = Canvas::new(Plot::new(4, 24));
    text.draw(&mut bare);
    assert_eq!(&bare.get_text()[0..24], b"ab                      ");
    assert_eq!(&bare.get_text()[72..78], b"INSERT");
}

#[test]
fn windows_borders_and_what_is_lost_make_up_the_screen() {
    let mut grid = Grid::new();
    grid.split_major();
    grid.split_major();
    grid.split_major();
    grid.split_minor(1).unwrap();
    grid.split_minor(1).unwrap();
    let dim = Plot::new(42, 100);
    let (windows, borders) = grid.generate(dim);
    let window_cells: usize = windows.iter().map(|w| w.dim.row * w.dim.col).sum();
    let border_cells: usize = borders.iter().map(|b| b.length * b.thickness).sum();
    // four strips of nine rows leave three rows over; the strip of three
    // windows of thirty-two columns leaves two columns over
    let lost = 100 * 3 + 9 * 2;
    assert_eq!(window_cells + border_cells + lost, 42 * 100);
    assert!(lost > 42 + 100);
    for w in &windows {
        assert!(w.start.row + w.dim.row <= dim.row);
        assert!(w.start.col + w.dim.col <= dim.col);
    }
}

#[test]
fn a_layout_is_fitted_to_the_number_of_windows() {
    let mut layout = Layout::new(Plot::new(10, 21));
    assert_eq!(layout.get_windows().len(), 1);
    layout.fit(2);
    assert_eq!(
        layout.get_windows(),
        &vec![
            WindowSpace { dim: Plot::new(10, 10), start: Plot::new(0, 0) },
            WindowSpace { dim: Plot::new(10, 10), start: Plot::new(0, 11) },
        ]
    );
    assert_eq!(layout.get_borders().len(), 1);
    layout.fit(0);
    assert_eq!(
        layout.get_windows(),
        &vec![WindowSpace { dim: Plot::new(10, 21), start: Plot::new(0, 0) }]
    );
    assert_eq!(layout.split(), Ok(()));
    assert_eq!(layout.get_windows().len(), 2);
    layout.join();
    layout.join();
    assert_eq!(layout.get_windows().len(), 1);
    layout.fit(usize::MAX);
    assert_eq!(layout.split(), Err(LayoutError::Full));
    assert!(layout.get_windows().is_empty());

    let mut grid = Grid::new();
    grid.set_minor(0, 3);
    assert_eq!(grid.window_count(), 3);
    grid.set_minor(0, 0);
    grid.set_minor(1, 5);
    assert_eq!(grid.window_count(), 3);
}

#[test]
fn a_manager_without_a_screen_keeps_room_for_its_windows() {
    let mut mint = IdMint::new();
    let mut manager = WindowManager::new();
    manager.add_window(Window::Test(TestWindow::new()), &mut mint);
    manager.add_window(Window::Test(TestWindow::new()), &mut mint);
    assert!(manager.get_layout().get_windows().is_empty());
    manager.resize(Plot::new(4, 9));
    assert_eq!(
        manager.get_layout().get_windows(),
        &vec![
            WindowSpace { dim: Plot::new(4, 4), start: Plot::new(0, 0) },
            WindowSpace { dim: Plot::new(4, 4), start: Plot::new(0, 5) },
        ]
    );
    let first = manager.get_container().window_order()[0];
    assert!(manager.remove_window(first).is_some());
    assert_eq!(
        manager.get_layout().get_windows(),
        &vec![WindowSpace { dim: Plot::new(4, 9), start: Plot::new(0, 0) }]
    );
    assert!(manager.remove_window(first).is_none());
}

#[test]
fn a_listing_opens_the_first_directory_of_its_path() {
    let mut root = DirectoryRep::new("root".to_string(), "/root".to_string(), true);
    root.open(vec![
        DirectoryEntry { name: "one".to_string(), path: "/root/same".to_string(), is_dir: true },
        DirectoryEntry { name: "two".to_string(), path: "/root/same".to_string(), is_dir: true },
        DirectoryEntry { name: "same".to_string(), path: "/root/file".to_string(), is_dir: false },
    ]);
    let entry = || DirectoryEntry {
        name: "in".to_string(),
        path: "/root/same/in".to_string(),
        is_dir: false,
    };
    assert!(root.open_path("/root/same", vec![entry()]).is_ok());
    assert_eq!(root.to_string(), "v root\n  v one\n    in\n  > two\n  same");
    // a file is no directory to open, and what is not taken is handed back
    let back = root.open_path("/root/file", vec![entry()]).unwrap_err();
    assert_eq!(back.len(), 1);
    assert_eq!(back[0].path, "/root/same/in");
    assert_eq!(root.to_string(), "v root\n  v one\n    in\n  > two\n  same");
    // toggling the line of an open directory closes it and drops its entries
    assert_eq!(root.toggle_line(1), Ok(false));
    assert_eq!(root.to_string(), "v root\n  > one\n  > two\n  same");
    assert_eq!(root.toggle_line(3), Ok(false));
    assert_eq!(root.toggle_line(0), Ok(false));
    assert_eq!(root.to_string(), "> root");
    assert_eq!(root.toggle_line(1), Err(0));
}

#[test]
fn a_command_line_is_local_and_an_alert_is_not() {
    assert!(PopUp::Command(Command::new()).local());
    assert!(!PopUp::Alert(Alert::new(StyledText::new("?".to_string()))).local());
}

#[test]
fn what_the_manager_cannot_deal_with_goes_to_its_owner() {
    let mut mint = IdMint::new();
    let mut bus = Bus::new();
    let mut manager = WindowManager::new();
    manager.init(bus.new_poster(&mut mint));
    manager.resize(Plot::new(6, 20));
    let mut tab = TabWindow::new();
    tab.add_window(Window::Fs(FSWindow::new(tree())), &mut mint);
    manager.add_window(Window::Tab(tab), &mut mint);
    for _ in 0..3 {
        manager.event(key('j'), &mut bus, &mut mint);
    }
    manager.event(press(Key::Enter), &mut bus, &mut mint);
    manager.collect_requests(&mut bus, &mut mint);
    let posted = kinds(&bus.poll());
    assert_eq!(posted.iter().filter(|kind| kind.as_str() == "OpenFile(/root/a.txt)").count(), 1);
    assert_eq!(posted.last().unwrap(), "OpenFile(/root/a.txt)");
    assert!(posted.iter().any(|kind| kind == "Redraw"));
    // what was handed on is handed on once
    manager.collect_requests(&mut bus, &mut mint);
    assert!(bus.poll().is_empty());

    // a listing finds its way down to the explorer
    manager.event(key('k'), &mut bus, &mut mint);
    manager.event(key('k'), &mut bus, &mut mint);
    manager.event(press(Key::Enter), &mut bus, &mut mint);
    manager.event(press(Key::Enter), &mut bus, &mut mint);
    manager.collect_requests(&mut bus, &mut mint);
    let posted = kinds(&bus.poll());
    assert_eq!(posted.last().unwrap(), "ListDirectory(/root/src)");
    manager.event(
        WindowEvent::Listing {
            path: "/root/src".to_string(),
            entries: vec![DirectoryEntry {
                name: "lib.rs".to_string(),
                path: "/root/src/lib.rs".to_string(),
                is_dir: false,
            }],
        },
        &mut bus,
        &mut mint);
    let mut canvas = Canvas::new(Plot::new(6, 20));
    manager.draw(&mut canvas);
    let text = canvas.get_text();
    assert_eq!(&text[2 * 20..2 * 20 + 9], b"  v src  ");
    assert_eq!(&text[3 * 20..3 * 20 + 10], b"    lib.rs");
}

#[test]
fn creates_splits() {
    let mut grid = Grid::new();

    grid.split_major();
    assert_eq!(grid.strip_count(), 2);

    grid.split_major();
    assert_eq!(grid.strip_count(), 3);

    grid.split_minor(0).unwrap();
    assert_eq!(grid.strip_count(), 3);
    assert_eq!(grid.windows_in(0), Some(2));

    grid.split_minor(0).unwrap();
    assert_eq!(grid.windows_in(0), Some(3));
    assert_eq!(grid.windows_in(1), Some(1));
    assert_eq!(grid.windows_in(3), None);
}

#[test]
fn splits_are_even() {
    let mut grid = Grid::new();

    grid.split_major();
    grid.split_major();
    let (windows, _) = grid.generate(Plot::new(32, 100));
    assert_eq!(windows[0].dim, windows[1].dim);
    assert_eq!(windows[1].dim, windows[2].dim);
    assert_eq!(windows[0].dim, Plot::new(10, 100));

    grid.split_minor(0).unwrap();
    let (windows, _) = grid.generate(Plot::new(32, 101));
    assert_eq!(windows[0].dim, windows[1].dim);
    assert_eq!(windows[0].dim, Plot::new(10, 50));
}

#[test]
fn window_size_single() {
    let mut grid = Grid::new();

    let res = grid.generate(Plot::new(40, 100));
    let window = &res.0[0];

    assert_eq!(window.dim, Plot::new(40, 100));

    // two strips share the rows that the border between them leaves
    grid.split_major();
    let res2 = grid.generate(Plot::new(40, 100));
    let window1 = &res2.0[0];
    let window2 = &res2.0[1];

    assert_eq!(window1.dim, Plot::new(19, 100));
    assert_eq!(window2.dim, Plot::new(19, 100));
    assert_eq!(res2.1.len(), 1);

    // two windows share the columns of the first strip likewise
    grid.split_minor(0).unwrap();
    let res3 = grid.generate(Plot::new(40, 100));

    assert_eq!(res3.0[0].dim, Plot::new(19, 49));
    assert_eq!(res3.0[1].dim, Plot::new(19, 49));
    assert_eq!(res3.0[2].dim, Plot::new(19, 100));
}

#[test]
fn a_file_that_is_not_there_yet_is_an_empty_unsaved_text() {
    let mut mint = IdMint::new();
    let mut bus = Bus::new();
    let mut text = TextWindow::for_new_file("b.txt".to_string(), "/tmp/b.txt".to_string());
    text.init(bus.new_poster(&mut mint));
    assert!(!text.is_saved());
    assert_eq!(text.name(), "*b.txt");
    text.event(WindowEvent::Command("q".to_string()), &mut bus);
    let mut polled = bus.poll();
    assert_eq!(kinds(&polled), vec!["AddPopup", "Redraw"]);
    // the popup is the alert with its three answers
    match polled.remove(0).1 {
        WindowRequest::AddPopup(Some(popup)) => match *popup {
            PopUp::Alert(alert) => {
                assert_eq!(alert.content.get_text(), "Unsaved changes in b.txt.");
                assert_eq!(alert.options.len(), 3);
                assert_eq!(alert.options[0].label.get_text(), "Save");
                assert_eq!(alert.options[1].label.get_text(), "Discard");
                assert_eq!(alert.options[2].label.get_text(), "Go Back");
                assert!(alert.options[2].requests.is_empty());
            }
            _ => panic!("no alert"),
        },
        _ => panic!("no popup"),
    }
    text.event(WindowEvent::Command("w".to_string()), &mut bus);
    assert_eq!(kinds(&bus.poll()), vec!["Save(/tmp/b.txt,)", "Redraw"]);
    assert!(text.is_saved());
}

#[test]
fn the_lines_of_the_tree_are_those_of_open_directories() {
    let mut root = tree();
    // a closed directory that still holds entries shows none of them
    root.children[0].is_open = false;
    assert_eq!(root.to_string(), "v root\n  > src\n  a.txt");
    assert_eq!(root.map_line_child(1).unwrap().name, "src");
    assert_eq!(root.map_line_child(2).unwrap().name, "a.txt");
    assert!(root.map_line_child(3).is_none());
    assert_eq!(root.toggle_line(2), Ok(false));
    assert_eq!(root.toggle_line(3), Err(0));
}

#[test]
fn tabs_within_tabs_take_the_room_they_are_given() {
    let mut mint = IdMint::new();
    let mut bus = Bus::new();
    // a tab without room below it holds windows that hold none themselves
    let mut inner = TabWindow::new();
    assert_eq!(inner.get_container().get_room(), 0);
    assert!(inner.get_container().has_room_for(&Window::Test(TestWindow::new())));
    inner.add_window(Window::Test(TestWindow::new()), &mut mint);
    let inner = Window::Tab(inner);
    assert!(!TabWindow::new().get_container().has_room_for(&inner));

    let mut outer = TabWindow::with_room(1);
    assert!(outer.get_container().has_room_for(&inner));
    outer.init(bus.new_poster(&mut mint));
    outer.add_window(inner, &mut mint);
    // a key goes all the way down, and the wish to be drawn all the way up
    outer.event(key('z'), &mut bus);
    outer.tick(&mut bus, &mut mint);
    let drawn = kinds(&bus.poll());
    assert!(drawn.len() >= 2);
    assert!(drawn.iter().all(|kind| kind == "Redraw"));
    let mut canvas = Canvas::new(Plot::new(4, 12));
    outer.draw(&mut canvas);
    assert_eq!(&canvas.get_text()[2 * 12..2 * 12 + 6], b"(2,12)");
    assert_eq!(&canvas.get_text()[3 * 12..3 * 12 + 1], b"z");

    // the manager has room for as many levels as there can be
    let manager = WindowManager::new();
    assert_eq!(manager.get_container().get_room(), NESTING_LIMIT);
    assert!(manager.get_container().has_room_for(&Window::Tab(outer)));
}

#[test]
fn a_window_that_was_handed_out_keeps_its_identifier() {
    let mut mint = IdMint::new();
    let mut bus = Bus::new();
    let mut other = Bus::new();
    let stranger = other.new_poster(&mut mint);
    let mut tab = TabWindow::new();
    tab.init(bus.new_poster(&mut mint));
    let first = tab.add_window(Window::Test(TestWindow::new()), &mut mint);
    // identifiers come from the one mint, whoever asks
    assert_eq!(*stranger.get_uuid(), Uuid(1));
    assert_eq!(first, Uuid(3));
    let handed = tab.pop_current().unwrap();
    assert_eq!(handed.get_container().window_order(), vec![first]);
    assert_eq!(handed.get_container().get_newest(), first);
    assert!(tab.pop_current().is_none());
}
