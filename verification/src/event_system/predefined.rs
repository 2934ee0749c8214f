//! The types of the events that the host itself emits.

use vstd::prelude::*;

verus! {

/// The event type `server_start`.
pub const SERVER_START: &'static str = "server_start";

/// The event type `server_shutdown`.
pub const SERVER_SHUTDOWN: &'static str = "server_shutdown";

/// The event type `user_connect`.
pub const USER_CONNECT: &'static str = "user_connect";

/// The event type `user_disconnect`.
pub const USER_DISCONNECT: &'static str = "user_disconnect";

/// The event type `room_state_change`.
pub const ROOM_STATE_CHANGE: &'static str = "room_state_change";

/// The event type `room_create`.
pub const ROOM_CREATE: &'static str = "room_create";

/// The event type `room_disband`.
pub const ROOM_DISBAND: &'static str = "room_disband";

/// The event type `user_join_room`.
pub const USER_JOIN_ROOM: &'static str = "user_join_room";

/// The event type `user_leave_room`.
pub const USER_LEAVE_ROOM: &'static str = "user_leave_room";

/// The event type `room_start_preparation`.
pub const ROOM_START_PREPARATION: &'static str = "room_start_preparation";

/// The event type `room_end_preparation`.
pub const ROOM_END_PREPARATION: &'static str = "room_end_preparation";

/// The event type `game_end`.
pub const GAME_END: &'static str = "game_end";

/// The event type `game_start`.
pub const GAME_START: &'static str = "game_start";

/// The event type `room_lock`.
pub const ROOM_LOCK: &'static str = "room_lock";

/// The event type `room_unlock`.
pub const ROOM_UNLOCK: &'static str = "room_unlock";

/// The event type `room_switch_normal_mode`.
pub const ROOM_SWITCH_NORMAL_MODE: &'static str = "room_switch_normal_mode";

/// The event type `room_switch_cycle_mode`.
pub const ROOM_SWITCH_CYCLE_MODE: &'static str = "room_switch_cycle_mode";

/// The event type `user_give_up_game`.
pub const USER_GIVE_UP_GAME: &'static str = "user_give_up_game";

/// The event type `room_prepare_game`.
pub const ROOM_PREPARE_GAME: &'static str = "room_prepare_game";

/// The event type `chart_select`.
pub const CHART_SELECT: &'static str = "chart_select";

/// The event type `command_input`.
pub const COMMAND_INPUT: &'static str = "command_input";

/// The event type `message_send`.
pub const MESSAGE_SEND: &'static str = "message_send";

/// The event type `plugin_load`.
pub const PLUGIN_LOAD: &'static str = "plugin_load";

/// The event type `plugin_unload`.
pub const PLUGIN_UNLOAD: &'static str = "plugin_unload";

/// The event type `plugin_error`.
pub const PLUGIN_ERROR: &'static str = "plugin_error";

/// The event type `config_reload`.
pub const CONFIG_RELOAD: &'static str = "config_reload";

} // verus!
