use chipscraft::block::BlockState;
use chipscraft::client::ClientMode;
use chipscraft::command::{Command, CommandKind, CommandList};
use chipscraft::userdata::UserList;

#[test]
fn permission_levels_have_their_wire_bytes() {
    assert_eq!(ClientMode::Normal.get_id(), 0x00);
    assert_eq!(ClientMode::Operator.get_id(), 0x64);
}

#[test]
fn the_block_catalog_flags_match_the_rules() {
    let air = BlockState::of(0);
    assert!(air.fluid && !air.fall && !air.place_op_only);
    let bedrock = BlockState::of(7);
    assert!(bedrock.place_op_only && bedrock.destroy_op_only);
    let water = BlockState::of(9);
    assert!(water.fluid && water.place_op_only && !water.destroy_op_only);
    let sand = BlockState::of(12);
    assert!(sand.fall && !sand.fluid);
    let gravel = BlockState::of(13);
    assert!(gravel.fall);
    let slab = BlockState::of(44);
    assert_eq!(slab.slab, Some(43));
    let stone = BlockState::of(1);
    assert!(!stone.fluid && !stone.fall && stone.slab.is_none());
}

#[test]
fn the_standard_registry_knows_its_commands() {
    let commands = CommandList::new();
    assert_eq!(commands.commands.len(), 16);
    let ban = commands.get(&String::from("ban")).expect("ban exists");
    assert!(ban.ops_only);
    assert_eq!(ban.kind, CommandKind::Ban);
    let tp = commands.get(&String::from("tp")).expect("tp exists");
    assert!(!tp.ops_only);
    assert!(commands.get(&String::from("fly")).is_none());
    let cuboid = commands.get(&String::from("cuboid")).expect("cuboid exists");
    assert!(cuboid.ops_only && cuboid.unrestricted_only);
}

#[test]
fn register_replaces_a_command_of_the_same_name() {
    let mut commands = CommandList::new();
    commands.register(Command {
        name: "ban",
        desc: "replacement",
        usage: "",
        ops_only: false,
        unmuted_only: false,
        unrestricted_only: false,
        kind: CommandKind::Ban,
    });
    assert_eq!(commands.commands.len(), 16);
    let ban = commands.get(&String::from("ban")).expect("still there");
    assert_eq!(ban.desc, "replacement");
    assert!(!ban.ops_only);
}

#[test]
fn iter_hides_operator_commands_from_normal_players() {
    let commands = CommandList::new();
    let for_ops = commands.iter(true);
    let for_all = commands.iter(false);
    assert_eq!(for_ops.len(), 16);
    assert!(for_all.len() < for_ops.len());
    assert!(for_all.iter().all(|c| !c.ops_only));
}

#[test]
fn user_lists_remember_and_forget() {
    let mut list = UserList::new(String::from("scratch.json"));
    assert!(!list.contains_username(&String::from("Ann")));
    list.add_username(String::from("Ann"));
    list.add_username(String::from("Ann"));
    assert_eq!(list.usernames.len(), 1);
    assert!(list.contains_username(&String::from("Ann")));
    list.add_ip(String::from("10.0.0.7"));
    assert!(list.contains(&String::from("nobody"), &String::from("10.0.0.7")));
    assert!(list.remove_username(&String::from("Ann")));
    assert!(!list.remove_username(&String::from("Ann")));
    assert!(!list.contains_username(&String::from("Ann")));
    assert!(list.remove_ip(&String::from("10.0.0.7")));
    assert!(!list.contains_ip(&String::from("10.0.0.7")));
}
