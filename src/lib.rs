//! A forwarding proxy's connection logic: request sniffing, address
//! overrides, destination resolution and per-connection decisions.

mod resolve;
mod session;
mod sniff;
mod sources;
mod table;
mod text;

pub use resolve::{
    find_last, last_index, lemma_resolve_unmapped, resolve, resolve_spec, unmapped,
};
pub use session::{
    is_sniff_target, lemma_reply_only_for_tunnel, outcome_tag, outcome_tag_spec, plan_request,
    plan_spec, relay_outcome, sniff_word, tunnel_reply, tunnel_reply_bytes, Action, Connection,
    Event, Outcome, Phase, Plan, Side, TUNNEL_REPLY,
};
pub use sniff::{
    ascii_eq_ignore_case, connect_word, default_port, eq_ignore_case, error_message, get_word,
    is_first_marker, is_marker_at, lemma_default_port, lemma_sniffed_destination_has_port,
    line_len, line_tokens, origin_request, sniff, sniff_spec, split_url, upper, url_parts,
    with_default_port, AddressError, ProxyMode, Sniffed,
};
pub use sources::{
    json_entries, json_string_lists, lemma_last_entry_wins, lemma_later_source_wins, line_entry,
    lines_entries, pair_entries, pair_entries_spec, text_entries, text_entries_spec,
};
pub use table::{apply_entries, apply_sources, entry_views, AddressTable, Entry};
pub use text::{
    ascii_trim, copy_range, find_byte, holds_from, is_first_at, is_space, pieces, split_on,
    split_spec, trim_end_spec, trim_spec, trim_start_spec,
};
