//! Builds the command and menu manifest of the editor extension: one command
//! per event of the event taxonomy, placed into a tree of menus and submenus
//! with deterministic group-and-order tokens, after the baseline entries.

mod command;
mod contributes;
mod event;
mod menus;
mod names;

pub use names::{camel_of, decimal, decimal_string, digit_char, group_token, group_token_of, mixed_of};

pub use menus::{
    declarations_match, entry_set, item_when, lemma_submenu_declared_once, keys_unique, location_map, opt_view, submenu_id_of, submenus_linked,
    CommandContext, CommandContextView, Context, ContextView, MenuKey, MenuKeyView, Menus, MenusView,
    SubMenu, SubMenuContext, SubMenuContextView, SubMenuView,
};

pub use event::{
    async_rank, desc_view, draw_rank, event_at, event_le, event_rank, other_rank, rank_le, stage_rank,
    AsyncKind, DrawKind, EventDescriptor, EventKind, EventStage, OtherKind,
};

pub use command::{
    baseline_entry, desc_commands, found_commands, found_events, views, baseline_ids, baseline_len, command_id_of, command_of,
    commands_of, default_commands, enablement_of, ids_of, is_baseline, sort_commands,
    sorted_by_event, synthesize, Command, CommandView, PROBE_LIMIT,
};

pub use contributes::{
    all_draw, all_ids, all_other, all_valid, apply_entry, bucket_count, bucket_label, bucket_slot,
    category_list, category_name, category_named, classify, create_command_lists, declare,
    draw_group, draw_placement, draw_placements, draw_set, entry_valid, fanout_placement,
    fanout_placements, fanout_set, flatten, lemma_assembly_reproducible, lemma_draw_order,
    lemma_fanout_order, lemma_other_order, link_view, names_distinct, other_bucket, other_index, other_placement,
    other_placements, place_all, place_one, place_others, placement, placement_set, same_entries,
    same_views, singleton_index, submenu_key, unique_ids, Category, Contributes, ContributesError,
    OtherBucket,
};
