use vstd::prelude::*;
use vstd::string::StringExecFns;

use crate::app_state::{ActivePane, AppState};
use crate::models::Server;
use crate::text::{concat, str_eq};

verus! {

/// The colour in which a value is shown.
#[derive(Clone, Copy, Debug, PartialEq, Eq)]
pub enum Tone {
    Green,
    Yellow,
    Red,
    Cyan,
    DarkGray,
    White,
}

/// The colour of a server's latency: green under 80 ms, yellow under
/// 150 ms, red above; without a ping, cyan while it is being checked and
/// grey otherwise.
pub open spec fn latency_tone_of(ping: Option<u32>, status_text: Seq<char>) -> Tone {
    match ping {
        Some(p) => if p < 80 {
            Tone::Green
        } else if p < 150 {
            Tone::Yellow
        } else {
            Tone::Red
        },
        None => if status_text == "Checking..."@ {
            Tone::Cyan
        } else {
            Tone::DarkGray
        },
    }
}

/// A ping under 80 ms is green, from 80 ms and under 150 ms yellow, from
/// 150 ms red; without a ping the server is cyan exactly while it is being
/// checked, grey otherwise.
pub proof fn lemma_latency_bands(p: u32, status_text: Seq<char>)
    ensures
        p < 80 ==> latency_tone_of(Some(p), status_text) == Tone::Green,
        80 <= p < 150 ==> latency_tone_of(Some(p), status_text) == Tone::Yellow,
        150 <= p ==> latency_tone_of(Some(p), status_text) == Tone::Red,
        status_text == "Checking..."@ ==> latency_tone_of(None, status_text) == Tone::Cyan,
        status_text != "Checking..."@ ==> latency_tone_of(None, status_text) == Tone::DarkGray,
{
}

/// The colour of a server's latency.
pub fn latency_tone(server: &Server) -> (r: Tone)
    ensures
        r == latency_tone_of(server.ping, server.status_text@),
        server.ping matches Some(p) ==> (p < 80 ==> r == Tone::Green) && (80 <= p < 150 ==> r
            == Tone::Yellow) && (150 <= p ==> r == Tone::Red),
{
    match server.ping {
        Some(p) => if p < 80 {
            Tone::Green
        } else if p < 150 {
            Tone::Yellow
        } else {
            Tone::Red
        },
        None => if str_eq(server.status_text.as_str(), "Checking...") {
            Tone::Cyan
        } else {
            Tone::DarkGray
        },
    }
}

/// The label of a server's blocking state.
pub fn block_label(server: &Server) -> (r: String)
    ensures
        r@ == (if server.blocked {
            "[X] Blocked"@
        } else {
            "[-] Allowed"@
        }),
{
    if server.blocked {
        String::from_str("[X] Blocked")
    } else {
        String::from_str("[-] Allowed")
    }
}

/// The colour of a server's blocking state: red when blocked, else green.
pub fn block_tone(server: &Server) -> (r: Tone)
    ensures
        r == (if server.blocked {
            Tone::Red
        } else {
            Tone::Green
        }),
{
    if server.blocked {
        Tone::Red
    } else {
        Tone::Green
    }
}

/// How the header shows the status line.
#[derive(Clone, Copy, Debug, PartialEq, Eq)]
pub enum HeaderTone {
    /// An error, in bold red.
    Error,
    /// Work under way, in cyan.
    Loading,
    /// At rest, in white.
    Idle,
}

/// The header's tone: an error first, then loading.
pub fn header_tone(state: &AppState) -> (r: HeaderTone)
    ensures
        r == (if state.error_message is Some {
            HeaderTone::Error
        } else if state.loading {
            HeaderTone::Loading
        } else {
            HeaderTone::Idle
        }),
{
    if state.error_message.is_some() {
        HeaderTone::Error
    } else if state.loading {
        HeaderTone::Loading
    } else {
        HeaderTone::Idle
    }
}

/// The header's text: the error, marked as such, or the status message.
pub fn header_text(state: &AppState) -> (r: String)
    ensures
        r@ == (match state.error_message {
            Some(e) => "ERROR: "@ + e@,
            None => state.status_message@,
        }),
{
    match &state.error_message {
        Some(err) => {
            let t = concat(&["ERROR: ", err.as_str()]);
            proof {
                reveal_with_fuel(Seq::fold_left, 3);
            }
            assert(t@ =~= "ERROR: "@ + err@);
            t
        },
        None => state.status_message.clone(),
    }
}

/// The title of the server table: the selected game's display name, or
/// nothing when no game is selected.
pub fn servers_title(state: &AppState) -> (r: String)
    ensures
        r@ == " Servers ("@ + (if state.selected_game_idx < state.games.len() {
            state.games@[state.selected_game_idx as int].display_name@
        } else {
            Seq::empty()
        }) + ") "@,
{
    let name: &str = if state.selected_game_idx < state.games.len() {
        state.games[state.selected_game_idx].display_name.as_str()
    } else {
        ""
    };
    let t = concat(&[" Servers (", name, ") "]);
    proof {
        reveal_with_fuel(Seq::fold_left, 4);
        if state.selected_game_idx >= state.games.len() {
            reveal_strlit("");
        }
    }
    assert(t@ =~= " Servers ("@ + name@ + ") "@);
    t
}

/// Whether a pane's border is highlighted: when it is the active one.
pub fn pane_highlighted(state: &AppState, pane: ActivePane) -> (r: bool)
    ensures
        r == (state.active_pane == pane),
{
    state.active_pane == pane
}

} // verus!
