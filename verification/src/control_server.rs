//! The control interface's commands: which command a request names, what its
//! arguments designate, and the help it gives.
use vstd::prelude::*;
use crate::protocol::types::NeighborResponseInfo;

verus! {

/// A neighbour as the control interface reports it.
#[derive(Debug)]
pub struct NeighborInfo {
    pub router_id: String,
    pub ip_address: String,
    pub last_seen: String,
    pub is_alive: bool,
    pub interfaces: Vec<String>,
}

impl NeighborInfo {
    /// The same neighbour, as reported in an answer to a neighbour request.
    pub fn from_response(n: NeighborResponseInfo) -> (r: NeighborInfo)
        ensures
            r.router_id == n.router_id,
            r.ip_address == n.ip_address,
            r.last_seen == n.last_seen,
            r.is_alive == n.is_alive,
            r.interfaces@ == n.interfaces@,
    {
        NeighborInfo {
            router_id: n.router_id,
            ip_address: n.ip_address,
            last_seen: n.last_seen,
            is_alive: n.is_alive,
            interfaces: n.interfaces,
        }
    }
}

/// The commands of the control interface.
#[derive(Debug, Clone, Copy, PartialEq, Eq, Structural)]
pub enum CommandKind {
    Status,
    Neighbors,
    NeighborsOf,
    Start,
    Stop,
    RoutingTable,
    Help,
    Unknown,
}

/// The command a name designates.
pub open spec fn spec_command_kind(name: Seq<char>) -> CommandKind {
    if name == "status"@ {
        CommandKind::Status
    } else if name == "neighbors"@ {
        CommandKind::Neighbors
    } else if name == "neighbors_of"@ {
        CommandKind::NeighborsOf
    } else if name == "start"@ {
        CommandKind::Start
    } else if name == "stop"@ {
        CommandKind::Stop
    } else if name == "routing_table"@ {
        CommandKind::RoutingTable
    } else if name == "help"@ {
        CommandKind::Help
    } else {
        CommandKind::Unknown
    }
}

/// The command a name designates (see `spec_command_kind`).
pub fn command_kind(name: &String) -> (r: CommandKind)
    ensures
        r == spec_command_kind(name@),
{
    if *name == "status".to_owned() {
        CommandKind::Status
    } else if *name == "neighbors".to_owned() {
        CommandKind::Neighbors
    } else if *name == "neighbors_of".to_owned() {
        CommandKind::NeighborsOf
    } else if *name == "start".to_owned() {
        CommandKind::Start
    } else if *name == "stop".to_owned() {
        CommandKind::Stop
    } else if *name == "routing_table".to_owned() {
        CommandKind::RoutingTable
    } else if *name == "help".to_owned() {
        CommandKind::Help
    } else {
        CommandKind::Unknown
    }
}

/// The arguments of a command, as far as `neighbors_of` reads them.
#[derive(Debug)]
pub enum CommandArgs {
    /// No arguments.
    Missing,
    /// A text.
    Text(String),
    /// An object, with its `router_id` member when that is a text.
    Object(Option<String>),
    /// Anything else.
    Other,
}

/// The router that a `neighbors_of` command asks about, or the message
/// explaining why the arguments name none.
pub fn neighbors_of_target(args: CommandArgs) -> (r: Result<String, String>)
    ensures
        match args {
            CommandArgs::Text(id) => r == Ok::<String, String>(id),
            CommandArgs::Object(Some(id)) => r == Ok::<String, String>(id),
            CommandArgs::Object(None) => r matches Err(m) && m@ == "Missing or invalid router_id parameter"@,
            _ => r matches Err(m) && m@ == "router_id parameter required"@,
        },
{
    match args {
        CommandArgs::Text(id) => Ok(id),
        CommandArgs::Object(Some(id)) => Ok(id),
        CommandArgs::Object(None) => Err("Missing or invalid router_id parameter".to_owned()),
        _ => Err("router_id parameter required".to_owned()),
    }
}

/// The commands and what each does, in the order the help lists them.
pub open spec fn spec_help() -> Seq<(Seq<char>, Seq<char>)> {
    seq![
        ("status"@, "Get protocol status"@),
        ("neighbors"@, "Get list of current neighbors"@),
        ("neighbors_of"@, "Get neighbors of specific router (requires router_id)"@),
        ("start"@, "Start the routing protocol"@),
        ("stop"@, "Stop the routing protocol"@),
        ("routing_table"@, "Get current routing table"@),
        ("help"@, "Show this help message"@),
    ]
}

/// The commands and what each does (see `spec_help`).
pub fn help_commands() -> (r: Vec<(String, String)>)
    ensures
        r@.map_values(|p: (String, String)| (p.0@, p.1@)) == spec_help(),
{
    let mut v: Vec<(String, String)> = Vec::new();
    v.push(("status".to_owned(), "Get protocol status".to_owned()));
    v.push(("neighbors".to_owned(), "Get list of current neighbors".to_owned()));
    v.push(("neighbors_of".to_owned(), "Get neighbors of specific router (requires router_id)".to_owned()));
    v.push(("start".to_owned(), "Start the routing protocol".to_owned()));
    v.push(("stop".to_owned(), "Stop the routing protocol".to_owned()));
    v.push(("routing_table".to_owned(), "Get current routing table".to_owned()));
    v.push(("help".to_owned(), "Show this help message".to_owned()));
    proof {
        assert(v@.map_values(|p: (String, String)| (p.0@, p.1@)) =~= spec_help());
    }
    v
}

/// The commands in the order the help lists them.
pub open spec fn spec_listed_kinds() -> Seq<CommandKind> {
    seq![
        CommandKind::Status,
        CommandKind::Neighbors,
        CommandKind::NeighborsOf,
        CommandKind::Start,
        CommandKind::Stop,
        CommandKind::RoutingTable,
        CommandKind::Help,
    ]
}

/// Every command the help lists is understood, each as a command of its own:
/// the listed names designate, in order, status, neighbours, neighbours of a
/// router, start, stop, routing table and help, so no listed name is answered
/// as unknown and no two listed names designate the same command; and every
/// name that designates a command is listed by the help.
pub proof fn law_help_names_every_command()
    ensures
        spec_help().len() == spec_listed_kinds().len(),
        forall|i: int|
            0 <= i < spec_help().len() ==> spec_command_kind(#[trigger] spec_help()[i].0)
                == spec_listed_kinds()[i],
        forall|i: int|
            0 <= i < spec_help().len() ==> spec_command_kind(#[trigger] spec_help()[i].0)
                != CommandKind::Unknown,
        forall|i: int, j: int|
            0 <= i < spec_help().len() && 0 <= j < spec_help().len() && i != j ==> spec_command_kind(
                #[trigger] spec_help()[i].0,
            ) != spec_command_kind(#[trigger] spec_help()[j].0),
        forall|name: Seq<char>|
            #[trigger] spec_command_kind(name) != CommandKind::Unknown ==> exists|i: int|
                0 <= i < spec_help().len() && spec_help()[i].0 == name,
{
    reveal_strlit("status");
    reveal_strlit("neighbors");
    reveal_strlit("neighbors_of");
    reveal_strlit("start");
    reveal_strlit("stop");
    reveal_strlit("routing_table");
    reveal_strlit("help");
    let h = spec_help();
    assert(h[0].0 == "status"@);
    assert(h[1].0 == "neighbors"@);
    assert(h[2].0 == "neighbors_of"@);
    assert(h[3].0 == "start"@);
    assert(h[4].0 == "stop"@);
    assert(h[5].0 == "routing_table"@);
    assert(h[6].0 == "help"@);
    assert(spec_command_kind("status"@) == CommandKind::Status);
    assert(spec_command_kind("neighbors"@) == CommandKind::Neighbors);
    assert(spec_command_kind("neighbors_of"@) == CommandKind::NeighborsOf);
    assert(spec_command_kind("start"@) == CommandKind::Start);
    assert(spec_command_kind("stop"@) == CommandKind::Stop);
    assert(spec_command_kind("routing_table"@) == CommandKind::RoutingTable);
    assert("help"@[0] != "stop"@[0]);
    assert(spec_command_kind("help"@) == CommandKind::Help);
    assert forall|name: Seq<char>| #[trigger] spec_command_kind(name) != CommandKind::Unknown implies exists|
        i: int,
    | 0 <= i < spec_help().len() && spec_help()[i].0 == name by {
        if name == "status"@ {
            assert(h[0].0 == name);
        } else if name == "neighbors"@ {
            assert(h[1].0 == name);
        } else if name == "neighbors_of"@ {
            assert(h[2].0 == name);
        } else if name == "start"@ {
            assert(h[3].0 == name);
        } else if name == "stop"@ {
            assert(h[4].0 == name);
        } else if name == "routing_table"@ {
            assert(h[5].0 == name);
        } else {
            assert(h[6].0 == name);
        }
    }
}

} // verus!
