//! A scan: from the text of an attribute dump to one history per configured
//! player.

use vstd::prelude::*;
use crate::config::Config;
use crate::history::{history_of, lemma_history_shape, matched_keys, opt_view, opts_view, player_history, HistoryEntry};
use crate::text::{lower_of, lowercase};
use crate::xml::{attr_view, nodes_view, parse_document, xml_parse, NodeView, XmlNode};

verus! {

/// The rating history of one configured player, most recent slot first.
#[derive(Clone, Debug, PartialEq, Eq)]
pub struct PlayerData {
    pub name: String,
    pub history: Vec<HistoryEntry>,
}

/// What makes a scan fail as a whole.
#[derive(Clone, Debug, PartialEq, Eq)]
pub enum ScanError {
    /// The attribute dump could not be read.
    Read(String),
    /// The attribute dump is not well-formed XML.
    Parse(String),
}

/// The model of a scan failure.
pub enum ScanErrorView {
    Read(Seq<char>),
    Parse(Seq<char>),
}

impl View for ScanError {
    type V = ScanErrorView;

    open spec fn view(&self) -> ScanErrorView {
        match self {
            ScanError::Read(m) => ScanErrorView::Read(m@),
            ScanError::Parse(m) => ScanErrorView::Parse(m@),
        }
    }
}

/// The model of a player's data: its name and its history.
pub type PlayerView = (Seq<char>, Seq<HistoryEntry>);

impl View for PlayerData {
    type V = PlayerView;

    open spec fn view(&self) -> PlayerView {
        (self.name@, self.history@)
    }
}

/// The folded `value` of each node.
pub open spec fn folded_values(nodes: Seq<NodeView>) -> Seq<Option<Seq<char>>> {
    nodes.map_values(
        |n: NodeView|
            match n.1 {
                Some(v) => Some(lower_of(v)),
                None => None,
            },
    )
}

/// The data of each named player, in the order of the names.
pub open spec fn players_of(nodes: Seq<NodeView>, names: Seq<Seq<char>>) -> Seq<PlayerView> {
    names.map_values(
        |p: Seq<char>| (p, history_of(nodes, folded_values(nodes), lower_of(p))),
    )
}

/// What a scan of `text` for the named players gives: the players' data, or
/// the parser's message.
pub open spec fn scan_of(text: Seq<char>, names: Seq<Seq<char>>) -> Result<
    Seq<PlayerView>,
    ScanErrorView,
> {
    match xml_parse(text) {
        Ok(nodes) => Ok(players_of(nodes, names)),
        Err(m) => Err(ScanErrorView::Parse(m)),
    }
}

/// The models of a sequence of players' data.
pub open spec fn players_view(v: Seq<PlayerData>) -> Seq<PlayerView> {
    v.map_values(|p: PlayerData| p@)
}

/// The model of a scan's outcome.
pub open spec fn scan_view(r: Result<Vec<PlayerData>, ScanError>) -> Result<
    Seq<PlayerView>,
    ScanErrorView,
> {
    match r {
        Ok(v) => Ok(players_view(v@)),
        Err(e) => Err(e@),
    }
}

/// The folded `value` of each node.
pub fn fold_values(nodes: &Vec<XmlNode>) -> (r: Vec<Option<String>>)
    ensures
        r.len() == nodes.len(),
        opts_view(r@) == folded_values(nodes_view(nodes@)),
{
    let mut out: Vec<Option<String>> = Vec::new();
    let mut i: usize = 0;
    while i < nodes.len()
        invariant
            i <= nodes.len(),
            out.len() == i,
            opts_view(out@) == folded_values(nodes_view(nodes@).subrange(0, i as int)),
        decreases nodes.len() - i,
    {
        let f = match &nodes[i].value {
            Some(v) => Some(lowercase(v.as_str())),
            None => None,
        };
        assert(nodes_view(nodes@)[i as int].1 == attr_view(nodes[i as int].value));
        assert(opt_view(f) == folded_values(nodes_view(nodes@))[i as int]);
        let ghost prev = out@;
        out.push(f);
        assert(opts_view(out@) =~= opts_view(prev).push(opt_view(f)));
        assert(nodes_view(nodes@).subrange(0, i + 1) =~= nodes_view(nodes@).subrange(0, i as int).push(nodes_view(nodes@)[i as int]));
        i = i + 1;
        assert(opts_view(out@) =~= folded_values(nodes_view(nodes@).subrange(0, i as int)));
    }
    assert(nodes_view(nodes@).subrange(0, i as int) =~= nodes_view(nodes@));
    out
}

/// The data of each configured player, in the order of the configuration,
/// found among the nodes of a parsed document.
pub fn scan_nodes(nodes: &Vec<XmlNode>, config: &Config) -> (r: Vec<PlayerData>)
    ensures
        players_view(r@) == players_of(nodes_view(nodes@), config.names()),
{
    let folded = fold_values(nodes);
    let mut out: Vec<PlayerData> = Vec::new();
    let mut i: usize = 0;
    let n = config.player_names.len();
    while i < n
        invariant
            n == config.player_names.len(),
            folded.len() == nodes.len(),
            opts_view(folded@) == folded_values(nodes_view(nodes@)),
            i <= n,
            players_view(out@) == players_of(nodes_view(nodes@), config.names().subrange(0, i as int)),
        decreases n - i,
    {
        let name = &config.player_names[i];
        let who = lowercase(name.as_str());
        let history = player_history(nodes, &folded, &who);
        let ghost prev = out@;
        let p = PlayerData { name: name.clone(), history };
        assert(config.names()[i as int] == name@);
        out.push(p);
        assert(players_view(out@) =~= players_view(prev).push(p@));
        assert(config.names().subrange(0, i + 1) =~= config.names().subrange(0, i as int).push(name@));
        i = i + 1;
        assert(players_view(out@) =~= players_of(nodes_view(nodes@), config.names().subrange(0, i as int)));
    }
    assert(config.names().subrange(0, i as int) =~= config.names());
    out
}

/// Scans the text of an attribute dump: the data of each configured player,
/// in the order of the configuration, or a parse error where the text is not
/// well-formed XML.
pub fn scan(text: &str, config: &Config) -> (r: Result<Vec<PlayerData>, ScanError>)
    ensures
        scan_view(r) == scan_of(text@, config.names()),
{
    match parse_document(text) {
        Ok(nodes) => Ok(scan_nodes(&nodes, config)),
        Err(m) => Err(ScanError::Parse(m)),
    }
}

/// A scan of well-formed text gives exactly one entry per configured player,
/// in the order of the configuration, each named as configured and holding
/// one history entry per key found for that player.
pub proof fn lemma_scan_one_entry_per_player(text: Seq<char>, names: Seq<Seq<char>>)
    requires
        xml_parse(text) is Ok,
    ensures
        scan_of(text, names) is Ok,
        ({
            let nodes = xml_parse(text)->Ok_0;
            let players = scan_of(text, names)->Ok_0;
            &&& players.len() == names.len()
            &&& forall|i: int|
                0 <= i < names.len() ==> (#[trigger] players[i]).0 == names[i] && players[i].1.len()
                    == matched_keys(nodes, folded_values(nodes), lower_of(names[i])).len()
        }),
{
    let nodes = xml_parse(text)->Ok_0;
    let players = scan_of(text, names)->Ok_0;
    assert forall|i: int| 0 <= i < names.len() implies (#[trigger] players[i]).0 == names[i]
        && players[i].1.len() == matched_keys(
        nodes,
        folded_values(nodes),
        lower_of(names[i]),
    ).len() by {
        lemma_history_shape(nodes, folded_values(nodes), lower_of(names[i]));
    }
}

/// Scanning the same, unchanged text for the same players twice gives the
/// same outcome both times.
pub proof fn lemma_scan_repeatable(
    text: Seq<char>,
    names: Seq<Seq<char>>,
    first: Result<Vec<PlayerData>, ScanError>,
    second: Result<Vec<PlayerData>, ScanError>,
)
    requires
        scan_view(first) == scan_of(text, names),
        scan_view(second) == scan_of(text, names),
    ensures
        scan_view(first) == scan_view(second),
{
}

} // verus!
