use way_cooler::awesome::AwesomeState;
use way_cooler::client::{notify_client_add, notify_client_remove, Client};
use way_cooler::ipc::Output;
use way_cooler::view::Shell;

#[test]
fn clients_join_at_the_end_and_leave_by_view() {
    let mut clients: Vec<Client> = Vec::new();
    notify_client_add(&mut clients, Shell::XdgV6(1));
    notify_client_add(&mut clients, Shell::XdgV6(2));
    notify_client_add(&mut clients, Shell::XdgV6(1));
    assert_eq!(clients.len(), 3);
    notify_client_remove(&mut clients, Shell::XdgV6(1));
    assert_eq!(clients, vec![Client::new(Shell::XdgV6(2)), Client::new(Shell::XdgV6(1))]);
    notify_client_remove(&mut clients, Shell::XdgV6(5));
    assert_eq!(clients.len(), 2);
}

#[test]
fn client_can_be_pointed_at_another_view() {
    let mut client = Client::new(Shell::XdgV6(1));
    client.init_client(Shell::XdgV6(8));
    assert_eq!(client.view, Shell::XdgV6(8));
}

#[test]
fn default_icon_size_is_zero() {
    let mut state = AwesomeState::default();
    assert_eq!(state.preferred_icon_size, 0);
    state.set_preferred_icon_size(24);
    assert_eq!(state.preferred_icon_size, 24);
}

#[test]
fn placeholder_output() {
    let out = Output::new();
    assert_eq!(out.name, "hi");
    assert_eq!(out.effective_resolution, (1920, 1080));
    assert!(out.focused);
    assert_eq!(out.clone(), out);
}
