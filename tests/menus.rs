use gm_contributes::{
    decimal_string, group_token, CommandContext, Context, MenuKey, Menus, SubMenuContext,
};

fn entries<'a>(menus: &'a Menus, key: &MenuKey) -> &'a Vec<Context> {
    &menus.locations().iter().find(|(k, _)| k == key).expect("location exists").1
}

#[test]
fn decimal_string_writes_digits() {
    assert_eq!(decimal_string(0), "0");
    assert_eq!(decimal_string(7), "7");
    assert_eq!(decimal_string(10), "10");
    assert_eq!(decimal_string(1234), "1234");
}

#[test]
fn group_token_joins_group_and_index() {
    assert_eq!(group_token("create", 3), "create@3");
    assert_eq!(group_token("drawmain", 12), "drawmain@12");
}

#[test]
fn command_context_new_fills_fields() {
    let cc = CommandContext::new("gmVfs.addStep", "create", 2);
    assert_eq!(cc.command(), "gmVfs.addStep");
    assert_eq!(cc.group(), "create@2");
    assert_eq!(cc.when(), "view == gmVfs && viewItem =~ /objectItem/");
}

#[test]
fn submenu_context_new_prefixes_id() {
    let sc = SubMenuContext::new("Step", 3);
    assert_eq!(sc.submenu, "gmVfs.Step");
    assert_eq!(sc.group(), "create@3");
    assert_eq!(sc.when(), "view == gmVfs && viewItem =~ /objectItem/");
}

#[test]
fn new_menus_have_two_empty_fixed_locations() {
    let menus = Menus::new();
    assert_eq!(menus.locations().len(), 2);
    assert!(entries(&menus, &MenuKey::Navigation).is_empty());
    assert!(entries(&menus, &MenuKey::Context).is_empty());
    assert!(menus.submenus().is_empty());
}

#[test]
fn add_context_toplevel_inserts_into_item_context() {
    let mut menus = Menus::new();
    menus.add_context_toplevel(CommandContext::new("gmVfs.addCreate", "create", 0));
    let ctx = entries(&menus, &MenuKey::Context);
    assert_eq!(ctx.len(), 1);
    assert_eq!(ctx[0], Context::Command(CommandContext::new("gmVfs.addCreate", "create", 0)));
    assert!(entries(&menus, &MenuKey::Navigation).is_empty());
}

#[test]
fn add_submenu_toplevel_declares_links_and_creates_location() {
    let mut menus = Menus::new();
    let key = menus.add_submenu_toplevel("User Events", 4, None);
    assert_eq!(key, MenuKey::Other("gmVfs.userEvents".to_string()));
    assert_eq!(key.name(), "gmVfs.userEvents");
    assert_eq!(menus.submenus().len(), 1);
    assert_eq!(menus.submenus()[0].id(), "gmVfs.userEvents");
    assert_eq!(menus.submenus()[0].label(), "User Events");
    assert_eq!(menus.submenus()[0].icon(), &None);
    let ctx = entries(&menus, &MenuKey::Context);
    assert_eq!(ctx, &vec![Context::SubMenu(SubMenuContext::new("userEvents", 4))]);
    assert!(entries(&menus, &key).is_empty());
}

#[test]
fn add_submenu_submenu_nests_under_parent() {
    let mut menus = Menus::new();
    let parent = menus.add_submenu_toplevel("Other", 5, Some("$(x)".to_string()));
    let child = menus.add_submenu_submenu(&parent, "Views", 2, None);
    assert_eq!(child, MenuKey::Other("gmVfs.views".to_string()));
    assert_eq!(entries(&menus, &parent), &vec![Context::SubMenu(SubMenuContext::new("views", 2))]);
    assert_eq!(menus.submenus()[0].icon(), &Some("$(x)".to_string()));
    assert_eq!(menus.locations().len(), 4);
}

#[test]
fn add_context_submenu_inserts_into_given_location() {
    let mut menus = Menus::new();
    let key = menus.add_submenu_toplevel("Step", 3, None);
    menus.add_context_submenu(&key, CommandContext::new("gmVfs.addStep", "create", 0));
    assert_eq!(
        entries(&menus, &key),
        &vec![Context::Command(CommandContext::new("gmVfs.addStep", "create", 0))]
    );
}

#[test]
fn with_baseline_seeds_fixed_locations() {
    let nav = vec![Context::Command(CommandContext::from_parts(
        "navigation@1".to_string(),
        "gmVfs.reloadWorkspace".to_string(),
        "view == gmVfs".to_string(),
    ))];
    let menus = Menus::with_baseline(nav.clone(), vec![]);
    assert_eq!(entries(&menus, &MenuKey::Navigation), &nav);
    assert!(entries(&menus, &MenuKey::Context).is_empty());
}

#[test]
fn menu_key_names() {
    assert_eq!(MenuKey::Navigation.name(), "view/title");
    assert_eq!(MenuKey::Context.name(), "view/title/context");
    assert!(MenuKey::Context.same_as(&MenuKey::Context));
    assert!(!MenuKey::Context.same_as(&MenuKey::Navigation));
}

#[test]
fn repeated_submenu_declaration_keeps_entries() {
    let mut menus = Menus::new();
    let key = menus.add_submenu_toplevel("Step", 3, None);
    menus.add_context_submenu(&key, CommandContext::new("gmVfs.addStep", "create", 0));
    let again = menus.add_submenu_toplevel("Step", 3, None);
    assert_eq!(again, key);
    assert_eq!(menus.submenus().len(), 1);
    assert_eq!(menus.locations().len(), 3);
    assert_eq!(
        entries(&menus, &key),
        &vec![Context::Command(CommandContext::new("gmVfs.addStep", "create", 0))]
    );
}
