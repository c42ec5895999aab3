use hostdash::app::{App, ConfirmDialog};

fn entry(port: u16, name: &str, pid: u32) -> (u16, String, u32) {
    (port, name.to_string(), pid)
}

fn ports(count: u16) -> Vec<(u16, String, u32)> {
    let mut list = Vec::new();
    let mut i: u16 = 0;
    while i < count {
        list.push(entry(1000 + i, "proc", 500 + i as u32));
        i += 1;
    }
    list
}

fn tick(app: &mut App, disk: (u64, u64), network: (u64, u64), list: Vec<(u16, String, u32)>) {
    app.update(0, (0, 0), disk, network, list);
}

fn dialog_of(app: &App) -> Option<(u16, String, bool)> {
    match app.confirm_dialog() {
        ConfirmDialog::Idle => None,
        ConfirmDialog::KillProcess { port, process_name, selected_yes } => {
            Some((*port, process_name.clone(), *selected_yes))
        }
    }
}

#[test]
fn new_session_is_empty() {
    let app = App::new();
    assert_eq!(app.cpu_history().len(), 0);
    assert_eq!((app.memory_used(), app.memory_total()), (0, 0));
    assert_eq!((app.disk_read(), app.disk_write()), (0, 0));
    assert_eq!((app.network_rx(), app.network_tx()), (0, 0));
    assert!(app.open_ports().is_empty());
    assert!(!app.should_quit());
    assert_eq!(app.selected_port_idx(), 0);
    assert!(!app.is_dialog_open());
    assert!(matches!(ConfirmDialog::default(), ConfirmDialog::Idle));
}

#[test]
fn first_tick_reports_no_traffic() {
    let mut app = App::new();
    tick(&mut app, (5_000_000, 7_000_000), (9_000_000, 11_000_000), vec![]);
    assert_eq!((app.disk_read(), app.disk_write()), (0, 0));
    assert_eq!((app.network_rx(), app.network_tx()), (0, 0));
}

#[test]
fn second_tick_reports_the_delta() {
    let mut app = App::new();
    tick(&mut app, (1000, 2000), (3000, 4000), vec![]);
    tick(&mut app, (1500, 2600), (3700, 4800), vec![]);
    assert_eq!((app.disk_read(), app.disk_write()), (500, 600));
    assert_eq!((app.network_rx(), app.network_tx()), (700, 800));
    tick(&mut app, (1500, 2601), (3700, 4802), vec![]);
    assert_eq!((app.disk_read(), app.disk_write()), (0, 1));
    assert_eq!((app.network_rx(), app.network_tx()), (0, 2));
}

#[test]
fn counter_that_fell_back_reports_zero() {
    let mut app = App::new();
    tick(&mut app, (1000, 2000), (3000, 4000), vec![]);
    tick(&mut app, (999, 1), (2999, 5000), vec![]);
    assert_eq!((app.disk_read(), app.disk_write()), (0, 0));
    assert_eq!((app.network_rx(), app.network_tx()), (0, 1000));
    tick(&mut app, (1999, 11), (3000, 5000), vec![]);
    assert_eq!((app.disk_read(), app.disk_write()), (1000, 10));
    assert_eq!((app.network_rx(), app.network_tx()), (1, 0));
}

#[test]
fn disk_and_network_start_independently() {
    let mut app = App::new();
    tick(&mut app, (100, 100), (0, 50), vec![]);
    tick(&mut app, (150, 170), (500, 90), vec![]);
    assert_eq!((app.disk_read(), app.disk_write()), (50, 70));
    // The receive counter was still zero: the network pair has not started.
    assert_eq!((app.network_rx(), app.network_tx()), (0, 0));
    tick(&mut app, (150, 170), (800, 100), vec![]);
    assert_eq!((app.network_rx(), app.network_tx()), (300, 10));
}

#[test]
fn zero_first_sample_delays_the_start() {
    let mut app = App::new();
    tick(&mut app, (0, 40), (0, 0), vec![]);
    tick(&mut app, (900, 80), (0, 0), vec![]);
    assert_eq!((app.disk_read(), app.disk_write()), (0, 0));
    tick(&mut app, (1000, 100), (0, 0), vec![]);
    assert_eq!((app.disk_read(), app.disk_write()), (100, 20));
}

#[test]
fn update_stores_memory() {
    let mut app = App::new();
    app.update(1234, (8_000, 16_000), (0, 0), (0, 0), vec![]);
    assert_eq!((app.memory_used(), app.memory_total()), (8_000, 16_000));
    let history: Vec<u32> = app.cpu_history().iter().copied().collect();
    assert_eq!(history, vec![1234]);
}

#[test]
fn history_keeps_the_last_sixty_samples() {
    let mut app = App::new();
    let mut sample: u32 = 0;
    while sample < 60 {
        app.update(sample, (0, 0), (0, 0), (0, 0), vec![]);
        sample += 1;
    }
    assert_eq!(app.cpu_history().len(), 60);
    assert_eq!(app.cpu_history().front(), Some(&0));
    app.update(60, (0, 0), (0, 0), (0, 0), vec![]);
    assert_eq!(app.cpu_history().len(), 60);
    assert_eq!(app.cpu_history().front(), Some(&1));
    assert_eq!(app.cpu_history().back(), Some(&60));
    while sample < 200 {
        app.update(sample, (0, 0), (0, 0), (0, 0), vec![]);
        sample += 1;
    }
    let history: Vec<u32> = app.cpu_history().iter().copied().collect();
    let expected: Vec<u32> = (140..200).collect();
    assert_eq!(history, expected);
}

#[test]
fn update_replaces_the_port_list() {
    let mut app = App::new();
    tick(&mut app, (0, 0), (0, 0), vec![entry(80, "nginx", 1), entry(443, "nginx", 1)]);
    tick(&mut app, (0, 0), (0, 0), vec![entry(22, "sshd", 9)]);
    assert_eq!(app.open_ports(), &vec![entry(22, "sshd", 9)]);
}

#[test]
fn selection_is_clamped_when_the_list_shrinks() {
    let mut app = App::new();
    tick(&mut app, (0, 0), (0, 0), ports(5));
    for _ in 0..4 {
        app.select_next_port();
    }
    assert_eq!(app.selected_port_idx(), 4);
    tick(&mut app, (0, 0), (0, 0), ports(2));
    assert_eq!(app.selected_port_idx(), 1);
    tick(&mut app, (0, 0), (0, 0), ports(7));
    assert_eq!(app.selected_port_idx(), 1);
}

#[test]
fn selection_stays_when_the_list_empties() {
    let mut app = App::new();
    tick(&mut app, (0, 0), (0, 0), ports(5));
    app.select_prev_port();
    assert_eq!(app.selected_port_idx(), 4);
    tick(&mut app, (0, 0), (0, 0), vec![]);
    assert_eq!(app.selected_port_idx(), 4);
    tick(&mut app, (0, 0), (0, 0), ports(3));
    assert_eq!(app.selected_port_idx(), 2);
}

#[test]
fn replace_ports_clamps_the_selection() {
    let mut app = App::new();
    tick(&mut app, (10, 10), (10, 10), ports(5));
    tick(&mut app, (30, 40), (50, 60), ports(5));
    app.select_prev_port();
    app.request_kill_selected();
    app.replace_ports(ports(3));
    assert_eq!(app.selected_port_idx(), 2);
    assert_eq!(app.open_ports(), &ports(3));
    assert_eq!((app.disk_read(), app.disk_write()), (20, 30));
    assert_eq!((app.network_rx(), app.network_tx()), (40, 50));
    assert!(app.is_dialog_open());
    app.replace_ports(vec![]);
    assert_eq!(app.selected_port_idx(), 2);
}

#[test]
fn selection_wraps_in_both_directions() {
    let mut app = App::new();
    tick(&mut app, (0, 0), (0, 0), ports(3));
    app.select_next_port();
    assert_eq!(app.selected_port_idx(), 1);
    app.select_next_port();
    assert_eq!(app.selected_port_idx(), 2);
    app.select_next_port();
    assert_eq!(app.selected_port_idx(), 0);
    app.select_prev_port();
    assert_eq!(app.selected_port_idx(), 2);
    app.select_prev_port();
    assert_eq!(app.selected_port_idx(), 1);
}

#[test]
fn dialog_round_trip() {
    let mut app = App::new();
    tick(&mut app, (0, 0), (0, 0), vec![entry(80, "nginx", 123)]);
    app.request_kill_selected();
    assert!(app.is_dialog_open());
    assert_eq!(dialog_of(&app), Some((80, "nginx".to_string(), false)));
    app.toggle_confirm_selection();
    assert_eq!(dialog_of(&app), Some((80, "nginx".to_string(), true)));
    assert_eq!(app.confirm_dialog_action(), Some(123));
    assert!(!app.is_dialog_open());
    assert_eq!(dialog_of(&app), None);
}

#[test]
fn confirming_no_terminates_nothing() {
    let mut app = App::new();
    tick(&mut app, (0, 0), (0, 0), vec![entry(80, "nginx", 123)]);
    app.request_kill_selected();
    assert_eq!(app.confirm_dialog_action(), None);
    assert!(!app.is_dialog_open());
    app.request_kill_selected();
    app.toggle_confirm_selection();
    app.toggle_confirm_selection();
    assert_eq!(dialog_of(&app), Some((80, "nginx".to_string(), false)));
    assert_eq!(app.confirm_dialog_action(), None);
    assert_eq!(app.confirm_dialog_action(), None);
}

#[test]
fn cancel_closes_the_dialog() {
    let mut app = App::new();
    tick(&mut app, (0, 0), (0, 0), vec![entry(80, "nginx", 123)]);
    app.request_kill_selected();
    app.toggle_confirm_selection();
    app.cancel_dialog();
    assert!(!app.is_dialog_open());
    assert_eq!(app.confirm_dialog_action(), None);
    assert_eq!(app.open_ports(), &vec![entry(80, "nginx", 123)]);
}

#[test]
fn quick_confirm_ignores_the_highlighted_answer() {
    let mut app = App::new();
    tick(&mut app, (0, 0), (0, 0), vec![entry(80, "nginx", 123), entry(81, "other", 124)]);
    assert_eq!(app.quick_confirm(), None);
    app.select_next_port();
    app.request_kill_selected();
    assert_eq!(dialog_of(&app), Some((81, "other".to_string(), false)));
    assert_eq!(app.quick_confirm(), Some(124));
    assert!(!app.is_dialog_open());
}

#[test]
fn quick_confirm_leaves_the_dialog_when_the_list_is_empty() {
    let mut app = App::new();
    tick(&mut app, (0, 0), (0, 0), vec![entry(80, "nginx", 123)]);
    app.request_kill_selected();
    tick(&mut app, (0, 0), (0, 0), vec![]);
    assert_eq!(app.quick_confirm(), None);
    assert!(app.is_dialog_open());
    app.toggle_confirm_selection();
    assert_eq!(app.confirm_dialog_action(), None);
    assert!(!app.is_dialog_open());
}

#[test]
fn update_leaves_the_dialog_alone() {
    let mut app = App::new();
    tick(&mut app, (0, 0), (0, 0), vec![entry(80, "nginx", 123)]);
    app.request_kill_selected();
    app.toggle_confirm_selection();
    tick(&mut app, (1, 1), (1, 1), vec![entry(8080, "java", 77)]);
    assert_eq!(dialog_of(&app), Some((80, "nginx".to_string(), true)));
}

#[test]
fn confirm_reads_the_selection_at_confirmation_time() {
    // Known edge: the dialog shows the entry it was opened on, while the
    // process named on confirmation is the one under the selection then.
    let mut app = App::new();
    tick(&mut app, (0, 0), (0, 0), vec![entry(80, "nginx", 123), entry(443, "nginx", 124)]);
    app.select_next_port();
    app.request_kill_selected();
    app.toggle_confirm_selection();
    tick(&mut app, (0, 0), (0, 0), vec![entry(22, "sshd", 9)]);
    assert_eq!(dialog_of(&app), Some((443, "nginx".to_string(), true)));
    assert_eq!(app.confirm_dialog_action(), Some(9));
}

#[test]
fn empty_list_is_safe() {
    let mut app = App::new();
    app.select_next_port();
    app.select_prev_port();
    app.request_kill_selected();
    app.toggle_confirm_selection();
    assert_eq!(app.selected_port_idx(), 0);
    assert!(!app.is_dialog_open());
    assert!(app.open_ports().is_empty());
    assert_eq!(app.confirm_dialog_action(), None);
    assert_eq!(app.quick_confirm(), None);
    assert!(!app.should_quit());
}

#[test]
fn force_quit_ends_the_session() {
    let mut app = App::new();
    tick(&mut app, (0, 0), (0, 0), ports(2));
    app.request_kill_selected();
    app.force_quit();
    assert!(app.should_quit());
    assert!(app.is_dialog_open());
    assert_eq!(app.open_ports().len(), 2);
}
