//! The names of the commands that the host itself offers.

use vstd::prelude::*;

verus! {

/// The command `help`.
pub const HELP: &'static str = "help";

/// The command `kick_user`.
pub const KICK_USER: &'static str = "kick_user";

/// The command `ban_user_id`.
pub const BAN_USER_ID: &'static str = "ban_user_id";

/// The command `unban_user_id`.
pub const UNBAN_USER_ID: &'static str = "unban_user_id";

/// The command `ban_user_ip`.
pub const BAN_USER_IP: &'static str = "ban_user_ip";

/// The command `unban_user_ip`.
pub const UNBAN_USER_IP: &'static str = "unban_user_ip";

/// The command `get_user_info`.
pub const GET_USER_INFO: &'static str = "get_user_info";

/// The command `get_username`.
pub const GET_USERNAME: &'static str = "get_username";

/// The command `get_user_language`.
pub const GET_USER_LANGUAGE: &'static str = "get_user_language";

/// The command `get_user_playtime`.
pub const GET_USER_PLAYTIME: &'static str = "get_user_playtime";

/// The command `get_playtime_leaderboard`.
pub const GET_PLAYTIME_LEADERBOARD: &'static str = "get_playtime_leaderboard";

/// The command `get_banned_users_id`.
pub const GET_BANNED_USERS_ID: &'static str = "get_banned_users_id";

/// The command `get_banned_users_ip`.
pub const GET_BANNED_USERS_IP: &'static str = "get_banned_users_ip";

/// The command `is_user_banned_id`.
pub const IS_USER_BANNED_ID: &'static str = "is_user_banned_id";

/// The command `is_user_banned_ip`.
pub const IS_USER_BANNED_IP: &'static str = "is_user_banned_ip";

/// The command `ban_user_from_room_id`.
pub const BAN_USER_FROM_ROOM_ID: &'static str = "ban_user_from_room_id";

/// The command `unban_user_from_room_id`.
pub const UNBAN_USER_FROM_ROOM_ID: &'static str = "unban_user_from_room_id";

/// The command `ban_user_from_room_ip`.
pub const BAN_USER_FROM_ROOM_IP: &'static str = "ban_user_from_room_ip";

/// The command `unban_user_from_room_ip`.
pub const UNBAN_USER_FROM_ROOM_IP: &'static str = "unban_user_from_room_ip";

/// The command `is_user_banned_from_room`.
pub const IS_USER_BANNED_FROM_ROOM: &'static str = "is_user_banned_from_room";

/// The command `create_room`.
pub const CREATE_ROOM: &'static str = "create_room";

/// The command `disband_room`.
pub const DISBAND_ROOM: &'static str = "disband_room";

/// The command `add_user_to_room`.
pub const ADD_USER_TO_ROOM: &'static str = "add_user_to_room";

/// The command `kick_user_from_room`.
pub const KICK_USER_FROM_ROOM: &'static str = "kick_user_from_room";

/// The command `get_room_info`.
pub const GET_ROOM_INFO: &'static str = "get_room_info";

/// The command `get_room_user_count`.
pub const GET_ROOM_USER_COUNT: &'static str = "get_room_user_count";

/// The command `get_room_user_ids`.
pub const GET_ROOM_USER_IDS: &'static str = "get_room_user_ids";

/// The command `get_room_host_id`.
pub const GET_ROOM_HOST_ID: &'static str = "get_room_host_id";

/// The command `set_room_max_users`.
pub const SET_ROOM_MAX_USERS: &'static str = "set_room_max_users";

/// The command `start_room_preparation`.
pub const START_ROOM_PREPARATION: &'static str = "start_room_preparation";

/// The command `end_room_preparation`.
pub const END_ROOM_PREPARATION: &'static str = "end_room_preparation";

/// The command `force_start_room_game`.
pub const FORCE_START_ROOM_GAME: &'static str = "force_start_room_game";

/// The command `set_room_lock`.
pub const SET_ROOM_LOCK: &'static str = "set_room_lock";

/// The command `switch_room_normal_mode`.
pub const SWITCH_ROOM_NORMAL_MODE: &'static str = "switch_room_normal_mode";

/// The command `switch_room_cycle_mode`.
pub const SWITCH_ROOM_CYCLE_MODE: &'static str = "switch_room_cycle_mode";

/// The command `select_room_chart`.
pub const SELECT_ROOM_CHART: &'static str = "select_room_chart";

/// The command `send_message_to_user`.
pub const SEND_MESSAGE_TO_USER: &'static str = "send_message_to_user";

/// The command `broadcast_message_to_all`.
pub const BROADCAST_MESSAGE_TO_ALL: &'static str = "broadcast_message_to_all";

/// The command `broadcast_message_to_room`.
pub const BROADCAST_MESSAGE_TO_ROOM: &'static str = "broadcast_message_to_room";

/// The command `broadcast_message_to_all_rooms`.
pub const BROADCAST_MESSAGE_TO_ALL_ROOMS: &'static str = "broadcast_message_to_all_rooms";

/// The command `shutdown_server`.
pub const SHUTDOWN_SERVER: &'static str = "shutdown_server";

/// The command `restart_server`.
pub const RESTART_SERVER: &'static str = "restart_server";

/// The command `reload_all_plugins`.
pub const RELOAD_ALL_PLUGINS: &'static str = "reload_all_plugins";

/// The command `reload_plugin`.
pub const RELOAD_PLUGIN: &'static str = "reload_plugin";

/// The command `get_plugin_list`.
pub const GET_PLUGIN_LIST: &'static str = "get_plugin_list";

/// The command `get_playtime_total_leaderboard`.
pub const GET_PLAYTIME_TOTAL_LEADERBOARD: &'static str = "get_playtime_total_leaderboard";

/// The command `get_online_user_count`.
pub const GET_ONLINE_USER_COUNT: &'static str = "get_online_user_count";

/// The command `get_available_room_count`.
pub const GET_AVAILABLE_ROOM_COUNT: &'static str = "get_available_room_count";

/// The command `get_room_list`.
pub const GET_ROOM_LIST: &'static str = "get_room_list";

/// The command `get_available_room_list`.
pub const GET_AVAILABLE_ROOM_LIST: &'static str = "get_available_room_list";

/// The command `get_online_user_ids`.
pub const GET_ONLINE_USER_IDS: &'static str = "get_online_user_ids";

} // verus!
