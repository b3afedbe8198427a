use gm_contributes::{
    create_command_lists, default_commands, synthesize, Category, Command,
    CommandContext, Context, Contributes, ContributesError, DrawKind, EventDescriptor, EventKind,
    EventStage, MenuKey, Menus, OtherKind, PROBE_LIMIT,
};

fn descriptor(name: &str, kind: EventKind) -> EventDescriptor {
    EventDescriptor { name: name.to_string(), kind }
}

fn entries<'a>(menus: &'a Menus, key: &MenuKey) -> &'a Vec<Context> {
    &menus.locations().iter().find(|(k, _)| k == key).expect("location exists").1
}

fn placed(command: &str, group: &str, idx: usize) -> Context {
    Context::Command(CommandContext::new(command, group, idx))
}

fn build(input: Vec<(String, Vec<Command>)>) -> Result<Contributes, ContributesError> {
    Contributes::new(input, Menus::new())
}

#[test]
fn command_new_builds_identifier_and_enablement() {
    let c = Command::new(descriptor("Create", EventKind::Create));
    assert_eq!(c.id(), "gmVfs.addCreate");
    assert_eq!(c.title(), "Create");
    assert_eq!(c.category(), &Some("Create".to_string()));
    assert_eq!(c.enablement(), &Some("view == gmVfs && viewItem =~ /canCreateEvent/".to_string()));
    assert_eq!(c.icon(), &None);
    assert_eq!(c.event_kind(), EventKind::Create);
}

#[test]
fn command_new_camel_cases_multiword_names() {
    let c = Command::new(descriptor("Begin Step", EventKind::Step(EventStage::Begin)));
    assert_eq!(c.id(), "gmVfs.addBeginStep");
    assert_eq!(c.title(), "Begin Step");
    assert_eq!(c.enablement(), &Some("view == gmVfs && viewItem =~ /canBeginStepEvent/".to_string()));
}

#[test]
fn create_scenario_places_command_in_item_context() {
    let found = synthesize("Create");
    assert_eq!(found.len(), 1);
    assert_eq!(found[0].title(), "Create");
    let out = build(vec![("Create".to_string(), found)]).expect("valid input");
    let last = out.commands.last().unwrap();
    assert_eq!(last.id(), "gmVfs.addCreate");
    assert_eq!(last.title(), "Create");
    assert_eq!(last.category(), &Some("Create".to_string()));
    assert_eq!(last.enablement(), &Some("view == gmVfs && viewItem =~ /canCreateEvent/".to_string()));
    assert_eq!(entries(&out.menus, &MenuKey::Context), &vec![placed("gmVfs.addCreate", "create", 0)]);
}

#[test]
fn step_scenario_builds_submenu_in_descriptor_order() {
    let cmds = vec![
        Command::new(descriptor("Step0", EventKind::Step(EventStage::Main))),
        Command::new(descriptor("Step1", EventKind::Step(EventStage::Begin))),
        Command::new(descriptor("Step2", EventKind::Step(EventStage::End))),
    ];
    let out = build(vec![("Step".to_string(), cmds)]).expect("valid input");
    let subs = out.menus.submenus();
    assert_eq!(subs.len(), 1);
    assert_eq!(subs[0].id(), "gmVfs.step");
    assert_eq!(subs[0].label(), "Step");
    let ctx = entries(&out.menus, &MenuKey::Context);
    assert_eq!(ctx.len(), 1);
    match &ctx[0] {
        Context::SubMenu(s) => {
            assert_eq!(s.submenu, "gmVfs.step");
            assert_eq!(s.group(), "create@3");
        }
        other => panic!("expected a submenu link, got {:?}", other),
    }
    let inner = entries(&out.menus, &MenuKey::Other("gmVfs.step".to_string()));
    assert_eq!(
        inner,
        &vec![
            placed("gmVfs.addStep0", "create", 0),
            placed("gmVfs.addStep1", "create", 1),
            placed("gmVfs.addStep2", "create", 2),
        ]
    );
}

#[test]
fn unknown_category_is_rejected() {
    let r = build(vec![("Foo".to_string(), vec![])]);
    assert_eq!(r.err(), Some(ContributesError::UnknownCategory("Foo".to_string())));
}

#[test]
fn singleton_category_with_two_commands_is_rejected() {
    let cmds = vec![
        Command::new(descriptor("Destroy", EventKind::Destroy)),
        Command::new(descriptor("Destroy Again", EventKind::Destroy)),
    ];
    let r = build(vec![("Destroy".to_string(), cmds)]);
    assert_eq!(r.err(), Some(ContributesError::WrongCount(Category::Destroy, 2)));
}

#[test]
fn draw_category_rejects_non_draw_event() {
    let cmds = vec![Command::new(descriptor("Step", EventKind::Step(EventStage::Main)))];
    let r = build(vec![("Draw".to_string(), cmds)]);
    assert_eq!(
        r.err(),
        Some(ContributesError::UnclassifiedEvent(Category::Draw, "gmVfs.addStep".to_string()))
    );
}

#[test]
fn other_category_rejects_foreign_event() {
    let cmds = vec![Command::new(descriptor("Collision", EventKind::Collision))];
    let r = build(vec![("Other".to_string(), cmds)]);
    assert_eq!(
        r.err(),
        Some(ContributesError::UnclassifiedEvent(Category::Other, "gmVfs.addCollision".to_string()))
    );
}

#[test]
fn duplicate_identifier_is_rejected() {
    let cmds = vec![Command::new(descriptor("Reload Workspace", EventKind::Step(EventStage::Main)))];
    let mut c = cmds;
    c[0] = Command::from_parts(
        "gmVfs.reloadWorkspace".to_string(),
        "Reload".to_string(),
        None,
        None,
        None,
        EventKind::Step(EventStage::Main),
    );
    let r = build(vec![("Step".to_string(), c)]);
    assert_eq!(
        r.err(),
        Some(ContributesError::DuplicateCommand("gmVfs.reloadWorkspace".to_string()))
    );
}

#[test]
fn draw_commands_grouped_by_stage() {
    let cmds = vec![
        Command::new(descriptor("Draw", EventKind::Draw(DrawKind::Draw(EventStage::Main)))),
        Command::new(descriptor("Draw Begin", EventKind::Draw(DrawKind::Draw(EventStage::Begin)))),
        Command::new(descriptor("Pre-Draw", EventKind::Draw(DrawKind::PreDraw))),
        Command::new(descriptor("Window Resize", EventKind::Draw(DrawKind::WindowResize))),
    ];
    let out = build(vec![("Draw".to_string(), cmds)]).expect("valid input");
    let inner = entries(&out.menus, &MenuKey::Other("gmVfs.draw".to_string()));
    assert_eq!(
        inner,
        &vec![
            placed("gmVfs.addDraw", "drawmain", 0),
            placed("gmVfs.addDrawBegin", "drawpost", 1),
            placed("gmVfs.addPreDraw", "prepost", 2),
            placed("gmVfs.addWindowResize", "window", 3),
        ]
    );
}

#[test]
fn other_commands_routed_to_buckets_with_gap_at_ten() {
    let mut cmds = Vec::new();
    for i in 0..12 {
        cmds.push(Command::new(descriptor(&format!("Plain {}", i), EventKind::Other(OtherKind::OutsideRoom))));
    }
    cmds.push(Command::new(descriptor("Outside View 0", EventKind::Other(OtherKind::OutsideView(0)))));
    cmds.push(Command::new(descriptor("User Event 0", EventKind::Other(OtherKind::UserEvent(0)))));
    cmds.push(Command::new(descriptor("Async - Http", EventKind::Async(gm_contributes::AsyncKind::Http))));
    let out = build(vec![("Other".to_string(), cmds)]).expect("valid input");
    let main = entries(&out.menus, &MenuKey::Other("gmVfs.other".to_string()));
    assert!(main.contains(&placed("gmVfs.addPlain9", "create", 9)));
    assert!(main.contains(&placed("gmVfs.addPlain10", "create", 11)));
    assert!(main.contains(&placed("gmVfs.addPlain11", "create", 12)));
    assert!(!main.iter().any(|c| matches!(c, Context::Command(cc) if cc.group() == "create@10")));
    let views = entries(&out.menus, &MenuKey::Other("gmVfs.views".to_string()));
    assert_eq!(views, &vec![placed("gmVfs.addOutsideView0", "create", 0)]);
    let users = entries(&out.menus, &MenuKey::Other("gmVfs.userEvents".to_string()));
    assert_eq!(users, &vec![placed("gmVfs.addUserEvent0", "create", 0)]);
    let asyncs = entries(&out.menus, &MenuKey::Other("gmVfs.asynchronous".to_string()));
    assert_eq!(asyncs, &vec![placed("gmVfs.addAsyncHttp", "create", 0)]);
}

#[test]
fn synthesize_counts_every_category() {
    let expected = [
        ("Create", 1),
        ("Destroy", 1),
        ("CleanUp", 1),
        ("Step", 3),
        ("Alarm", 12),
        ("Draw", 9),
        ("Other", 56),
    ];
    for (name, count) in expected {
        let cmds = synthesize(name);
        assert_eq!(cmds.len(), count, "category {}", name);
        let mut ids: Vec<&String> = cmds.iter().map(|c| c.id()).collect();
        ids.sort();
        ids.dedup();
        assert_eq!(ids.len(), count, "category {}", name);
    }
    assert!(PROBE_LIMIT > 76);
    assert!(synthesize("Foo").is_empty());
}

#[test]
fn synthesize_orders_by_event() {
    let draw = synthesize("Draw");
    let kinds: Vec<EventKind> = draw.iter().map(|c| c.event_kind()).collect();
    assert_eq!(kinds[0], EventKind::Draw(DrawKind::Draw(EventStage::Main)));
    assert_eq!(kinds[1], EventKind::Draw(DrawKind::Draw(EventStage::Begin)));
    assert_eq!(kinds[3], EventKind::Draw(DrawKind::DrawGui(EventStage::Main)));
    assert_eq!(kinds[8], EventKind::Draw(DrawKind::WindowResize));
    for w in draw.windows(2) {
        assert!(w[0].event_kind().precedes_or_equals(&w[1].event_kind()));
    }
}

#[test]
fn full_assembly_has_unique_ids_and_linked_submenus() {
    let out = build(create_command_lists()).expect("taxonomy assembles");
    let mut ids: Vec<&String> = out.commands.iter().map(|c| c.id()).collect();
    let n = ids.len();
    assert_eq!(n, default_commands().len() + 1 + 1 + 1 + 3 + 12 + 9 + 56);
    ids.sort();
    ids.dedup();
    assert_eq!(ids.len(), n);
    for (_, list) in out.menus.locations() {
        for e in list {
            if let Context::SubMenu(s) = e {
                assert!(out.menus.submenus().iter().any(|d| d.id() == &s.submenu));
                assert!(out.menus.locations().iter().any(|(k, _)| k == &MenuKey::Other(s.submenu.clone())));
            }
        }
    }
}

#[test]
fn assembly_is_reproducible() {
    let a = build(create_command_lists()).expect("taxonomy assembles");
    let b = build(create_command_lists()).expect("taxonomy assembles");
    assert_eq!(format!("{:?}", a), format!("{:?}", b));
}

#[test]
fn default_commands_are_the_baseline() {
    let d = default_commands();
    assert_eq!(d.len(), 9);
    assert_eq!(d[0].id(), "gmVfs.reloadWorkspace");
    assert_eq!(d[0].icon(), &Some("$(refresh)".to_string()));
    assert_eq!(d[8].id(), "gmVfs.deleteEvent");
    assert_eq!(d[8].category(), &Some("Delete".to_string()));
}

#[test]
fn category_names_round_trip() {
    for c in [Category::Create, Category::CleanUp, Category::Other] {
        assert_eq!(Category::from_name(&c.name()), Some(c));
    }
    assert_eq!(Category::from_name("cleanup"), None);
}

#[test]
fn commands_of_sorts_by_event() {
    let found = vec![
        descriptor("Draw GUI", EventKind::Draw(DrawKind::DrawGui(EventStage::Main))),
        descriptor("Draw End", EventKind::Draw(DrawKind::Draw(EventStage::End))),
        descriptor("Draw", EventKind::Draw(DrawKind::Draw(EventStage::Main))),
    ];
    let cmds = gm_contributes::commands_of(found);
    let ids: Vec<&str> = cmds.iter().map(|c| c.id().as_str()).collect();
    assert_eq!(ids, vec!["gmVfs.addDraw", "gmVfs.addDrawEnd", "gmVfs.addDrawGui"]);
}

#[test]
fn alarm_submenu_indexes_by_position() {
    let cmds = gm_contributes::synthesize("Alarm");
    let out = build(vec![("Alarm".to_string(), cmds)]).expect("valid input");
    let inner = entries(&out.menus, &MenuKey::Other("gmVfs.alarm".to_string()));
    assert_eq!(inner.len(), 12);
    assert_eq!(inner[0], placed("gmVfs.addAlarm0", "create", 0));
    assert_eq!(inner[11], placed("gmVfs.addAlarm11", "create", 11));
}

#[test]
fn repeated_category_is_rejected() {
    let a = vec![Command::new(descriptor("Step", EventKind::Step(EventStage::Main)))];
    let b = vec![Command::new(descriptor("Begin Step", EventKind::Step(EventStage::Begin)))];
    let r = build(vec![("Step".to_string(), a), ("Step".to_string(), b)]);
    assert_eq!(r.err(), Some(ContributesError::RepeatedCategory("Step".to_string())));
}
