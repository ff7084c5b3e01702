use vstd::prelude::*;

use crate::text::{contains_seq, lowercase, str_contains, str_eq, texts, to_lowercase};

verus! {

/// An IP address as its numeric parts: four octets, or eight 16-bit
/// segments, most significant first.
#[derive(Clone, Copy, Debug, PartialEq, Eq)]
pub enum IpAddress {
    V4([u8; 4]),
    V6([u16; 8]),
}

/// A relay of a point of presence, reached at one address.
#[derive(Clone, Copy, Debug, PartialEq, Eq)]
pub struct Relay {
    pub ipv4: IpAddress,
}

/// How one game's servers are found and filtered.
#[derive(Clone, Debug, PartialEq, Eq)]
pub struct GameDefinition {
    pub game_mode: String,
    pub id: String,
    pub display_name: String,
    pub app_id: u32,
    pub keyword_filter_mode: String,
    pub keywords: Vec<String>,
    pub cluster_keywords: Vec<String>,
}

/// A point of presence of the relay network, with its relays if it lists any.
#[derive(Clone, Debug, PartialEq, Eq)]
pub struct PopDefinition {
    pub desc: String,
    pub relays: Option<Vec<Relay>>,
}

/// The relay network configuration: each point of presence under its
/// identifier, in the order in which they were read.
#[derive(Clone, Debug, PartialEq, Eq)]
pub struct SdrConfig {
    pub pops: Vec<(String, PopDefinition)>,
}

/// A server as the interface lists it: a point of presence, or a cluster
/// of them, with its relays and what was last measured of it.
#[derive(Clone, Debug, PartialEq, Eq)]
pub struct Server {
    pub id: String,
    pub description: String,
    pub relays: Vec<Relay>,
    pub ping: Option<u32>,
    pub status_text: String,
    pub blocked: bool,
    pub packet_loss: Option<u32>,
}

/// A server with its texts and lists as mathematical values.
pub struct ServerView {
    pub id: Seq<char>,
    pub description: Seq<char>,
    pub relays: Seq<Relay>,
    pub ping: Option<u32>,
    pub status_text: Seq<char>,
    pub blocked: bool,
    pub packet_loss: Option<u32>,
}

impl View for Server {
    type V = ServerView;

    open spec fn view(&self) -> ServerView {
        ServerView {
            id: self.id@,
            description: self.description@,
            relays: self.relays@,
            ping: self.ping,
            status_text: self.status_text@,
            blocked: self.blocked,
            packet_loss: self.packet_loss,
        }
    }
}

/// The views of a sequence of servers.
pub open spec fn server_views(s: Seq<Server>) -> Seq<ServerView> {
    s.map_values(|x: Server| x@)
}

/// Some keyword occurs in `text`.
pub open spec fn keyword_hit(text: Seq<char>, keywords: Seq<Seq<char>>) -> bool {
    exists|i: int| 0 <= i < keywords.len() && contains_seq(text, #[trigger] keywords[i])
}

/// The keyword filter on texts already lowered: in mode `include` the
/// description must mention a keyword, in mode `exclude` it must mention
/// none, in any other mode it passes.
pub open spec fn filter_passes(mode: Seq<char>, desc: Seq<char>, keywords: Seq<Seq<char>>) -> bool {
    if mode == "include"@ {
        keyword_hit(desc, keywords)
    } else if mode == "exclude"@ {
        !keyword_hit(desc, keywords)
    } else {
        true
    }
}

/// The keywords of a definition, lowered.
pub open spec fn lowered_keywords(keywords: Seq<String>) -> Seq<Seq<char>> {
    keywords.map_values(|k: String| lowercase(k@))
}

/// Whether a server described by `desc` passes the game's keyword filter,
/// mode, description and keywords all compared in lower case.
pub open spec fn accepts(definition: GameDefinition, desc: Seq<char>) -> bool {
    filter_passes(
        lowercase(definition.keyword_filter_mode@),
        lowercase(desc),
        lowered_keywords(definition.keywords@),
    )
}

/// For the same keywords, the `include` and `exclude` modes let through
/// exactly opposite sets of servers, and any other mode lets all through.
pub proof fn lemma_filter_modes(including: GameDefinition, excluding: GameDefinition, other: GameDefinition, desc: Seq<char>)
    requires
        lowercase(including.keyword_filter_mode@) == "include"@,
        lowercase(excluding.keyword_filter_mode@) == "exclude"@,
        lowercase(other.keyword_filter_mode@) != "include"@,
        lowercase(other.keyword_filter_mode@) != "exclude"@,
        including.keywords@ == excluding.keywords@,
    ensures
        accepts(including, desc) == !accepts(excluding, desc),
        accepts(other, desc),
{
    reveal_strlit("include");
    reveal_strlit("exclude");
    assert("include"@ != "exclude"@) by {
        assert("include"@[0] != "exclude"@[0]);
    }
}

/// The keyword filter, given the mode, the description and the keywords
/// in the case in which they are to be compared.
pub fn keyword_filter(mode: &str, desc: &str, keywords: &Vec<String>) -> (r: bool)
    ensures
        r == filter_passes(mode@, desc@, texts(keywords@)),
{
    let hit = any_keyword_in(desc, keywords);
    if str_eq(mode, "include") {
        hit
    } else if str_eq(mode, "exclude") {
        !hit
    } else {
        true
    }
}

/// Whether some keyword occurs in `text`.
fn any_keyword_in(text: &str, keywords: &Vec<String>) -> (r: bool)
    ensures
        r == keyword_hit(text@, texts(keywords@)),
{
    let mut i: usize = 0;
    while i < keywords.len()
        invariant
            i <= keywords.len(),
            forall|k: int| 0 <= k < i ==> !contains_seq(text@, #[trigger] keywords@[k]@),
        decreases keywords.len() - i,
    {
        if str_contains(text, keywords[i].as_str()) {
            assert(texts(keywords@)[i as int] == keywords@[i as int]@);
            return true;
        }
        i = i + 1;
    }
    assert forall|k: int| 0 <= k < keywords.len() implies !contains_seq(text@, #[trigger] texts(keywords@)[k]) by {
        assert(texts(keywords@)[k] == keywords@[k]@);
    }
    false
}

/// The keywords in lower case.
fn lower_all(keywords: &Vec<String>) -> (r: Vec<String>)
    ensures
        texts(r@) == lowered_keywords(keywords@),
{
    let mut r: Vec<String> = Vec::new();
    let mut i: usize = 0;
    while i < keywords.len()
        invariant
            i <= keywords.len(),
            r@.len() == i,
            forall|k: int| 0 <= k < i ==> (#[trigger] r@[k])@ == lowercase(keywords@[k]@),
        decreases keywords.len() - i,
    {
        r.push(to_lowercase(keywords[i].as_str()));
        i = i + 1;
    }
    assert(texts(r@) =~= lowered_keywords(keywords@));
    r
}

/// A copy of a list of relays.
pub fn copy_relays(v: &Vec<Relay>) -> (r: Vec<Relay>)
    ensures
        r@ == v@,
{
    let mut r: Vec<Relay> = Vec::new();
    let mut i: usize = 0;
    while i < v.len()
        invariant
            i <= v.len(),
            r@ == v@.take(i as int),
        decreases v.len() - i,
    {
        r.push(v[i]);
        i = i + 1;
        assert(r@ =~= v@.take(i as int));
    }
    assert(v@.take(i as int) =~= v@);
    r
}

/// A copy of a server.
pub fn copy_server(s: &Server) -> (r: Server)
    ensures
        r@ == s@,
{
    Server {
        id: s.id.clone(),
        description: s.description.clone(),
        relays: copy_relays(&s.relays),
        ping: s.ping,
        status_text: s.status_text.clone(),
        blocked: s.blocked,
        packet_loss: s.packet_loss,
    }
}

/// A copy of a list of servers.
pub fn copy_servers(v: &Vec<Server>) -> (r: Vec<Server>)
    ensures
        server_views(r@) == server_views(v@),
{
    let mut r: Vec<Server> = Vec::new();
    let mut i: usize = 0;
    while i < v.len()
        invariant
            i <= v.len(),
            r@.len() == i,
            forall|k: int| 0 <= k < i ==> (#[trigger] r@[k])@ == v@[k]@,
        decreases v.len() - i,
    {
        r.push(copy_server(&v[i]));
        i = i + 1;
    }
    assert(server_views(r@) =~= server_views(v@));
    r
}

impl Server {
    /// Whether the game's keyword filter lets this server through.
    pub fn is_accepted(&self, definition: &GameDefinition) -> (r: bool)
        ensures
            r == accepts(*definition, self.description@),
    {
        let desc_lower = to_lowercase(self.description.as_str());
        let mode = to_lowercase(definition.keyword_filter_mode.as_str());
        let keywords = lower_all(&definition.keywords);
        keyword_filter(mode.as_str(), desc_lower.as_str(), &keywords)
    }
}

} // verus!
