//! The commands of the interactive shell: which line is which command, their help,
//! and the parsing of their arguments.
use vstd::prelude::*;
use crate::text::{chars_of, string_of, extend_chars, trim, trim_spec, words, words_from, is_white_space, split_whitespace, starts_with, starts_with_exec, uppercase, to_uppercase};

verus! {

/// A family of commands of the interactive shell.
#[derive(Clone, Copy, Debug, PartialEq, Eq)]
pub enum FamilyId {
    Kad,
    GossipSub,
    Ping,
    Neigh,
    Script,
    Me,
    File,
}

/// A command of the interactive shell.
#[derive(Clone, Copy, Debug, PartialEq, Eq)]
pub enum CommandId {
    KadPut,
    KadGet,
    KadBootstrap,
    KadProvide,
    KadGetProviders,
    GosPing,
    GosPub,
    GosSub,
    Ping,
    NeighSub,
    NeighList,
    NeighUnresolved,
    ScriptDeploySelf,
    ScriptDeployRemote,
    ScriptLocalDeploySelf,
    ScriptLocalDeployRemote,
    ScriptList,
    ScriptStopAll,
    ScriptStopOne,
    MeId,
    FileList,
    FileImport,
    FileGet,
}

/// The families, in the order in which a line is matched against them.
pub open spec fn all_families() -> Seq<FamilyId> {
    seq![FamilyId::Kad, FamilyId::GossipSub, FamilyId::Ping, FamilyId::Neigh, FamilyId::Script, FamilyId::Me, FamilyId::File]
}

/// The name of a family, shown above its help.
pub open spec fn family_name(f: FamilyId) -> Seq<char> {
    match f {
        FamilyId::Kad => seq!['K', 'a', 'd', 'e', 'm', 'l', 'i', 'a'],
        FamilyId::GossipSub => seq!['G', 'o', 's', 's', 'i', 'p', 'S', 'u', 'b'],
        FamilyId::Ping => seq!['P', 'i', 'n', 'g'],
        FamilyId::Neigh => seq!['N', 'e', 'i', 'g', 'h', 'b', 'o', 'u', 'r', 'h', 'o', 'o', 'd'],
        FamilyId::Script => seq!['S', 'c', 'r', 'i', 'p', 't', 'i', 'n', 'g'],
        FamilyId::Me => seq!['M', 'e'],
        FamilyId::File => seq!['F', 'i', 'l', 'e', ' ', 'T', 'r', 'a', 'n', 's', 'f', 'e', 'r'],
    }
}

/// The word that begins every command of a family.
pub open spec fn family_prefix(f: FamilyId) -> Seq<char> {
    match f {
        FamilyId::Kad => seq!['K', 'A', 'D'],
        FamilyId::GossipSub => seq!['G', 'O', 'S'],
        FamilyId::Ping => seq!['P', 'I', 'N', 'G'],
        FamilyId::Neigh => seq!['N', 'E', 'I', 'G', 'H'],
        FamilyId::Script => seq!['S', 'C', 'R', 'I', 'P', 'T'],
        FamilyId::Me => seq!['M', 'E'],
        FamilyId::File => seq!['F', 'I', 'L', 'E'],
    }
}

/// The commands of a family, in the order in which they are tried.
pub open spec fn family_commands(f: FamilyId) -> Seq<CommandId> {
    match f {
        FamilyId::Kad => seq![CommandId::KadPut, CommandId::KadGet, CommandId::KadBootstrap, CommandId::KadProvide, CommandId::KadGetProviders],
        FamilyId::GossipSub => seq![CommandId::GosPing, CommandId::GosPub, CommandId::GosSub],
        FamilyId::Ping => seq![CommandId::Ping],
        FamilyId::Neigh => seq![CommandId::NeighSub, CommandId::NeighList, CommandId::NeighUnresolved],
        FamilyId::Script => seq![CommandId::ScriptDeploySelf, CommandId::ScriptDeployRemote, CommandId::ScriptLocalDeploySelf, CommandId::ScriptLocalDeployRemote, CommandId::ScriptList, CommandId::ScriptStopAll, CommandId::ScriptStopOne],
        FamilyId::Me => seq![CommandId::MeId],
        FamilyId::File => seq![CommandId::FileList, CommandId::FileImport, CommandId::FileGet],
    }
}

/// The family of a command.
pub open spec fn command_family(c: CommandId) -> FamilyId {
    match c {
        CommandId::KadPut => FamilyId::Kad,
        CommandId::KadGet => FamilyId::Kad,
        CommandId::KadBootstrap => FamilyId::Kad,
        CommandId::KadProvide => FamilyId::Kad,
        CommandId::KadGetProviders => FamilyId::Kad,
        CommandId::GosPing => FamilyId::GossipSub,
        CommandId::GosPub => FamilyId::GossipSub,
        CommandId::GosSub => FamilyId::GossipSub,
        CommandId::Ping => FamilyId::Ping,
        CommandId::NeighSub => FamilyId::Neigh,
        CommandId::NeighList => FamilyId::Neigh,
        CommandId::NeighUnresolved => FamilyId::Neigh,
        CommandId::ScriptDeploySelf => FamilyId::Script,
        CommandId::ScriptDeployRemote => FamilyId::Script,
        CommandId::ScriptLocalDeploySelf => FamilyId::Script,
        CommandId::ScriptLocalDeployRemote => FamilyId::Script,
        CommandId::ScriptList => FamilyId::Script,
        CommandId::ScriptStopAll => FamilyId::Script,
        CommandId::ScriptStopOne => FamilyId::Script,
        CommandId::MeId => FamilyId::Me,
        CommandId::FileList => FamilyId::File,
        CommandId::FileImport => FamilyId::File,
        CommandId::FileGet => FamilyId::File,
    }
}

/// The fixed words of a command after its family's prefix.
pub open spec fn command_labels(c: CommandId) -> Seq<Seq<char>> {
    match c {
        CommandId::KadPut => seq![seq!['P', 'U', 'T']],
        CommandId::KadGet => seq![seq!['G', 'E', 'T']],
        CommandId::KadBootstrap => seq![seq!['B', 'O', 'O', 'T']],
        CommandId::KadProvide => seq![seq!['P', 'R', 'O', 'V', 'I', 'D', 'E']],
        CommandId::KadGetProviders => seq![seq!['P', 'R', 'O', 'V', 'I', 'D', 'E', 'R', 'S']],
        CommandId::GosPing => seq![seq!['P', 'I', 'N', 'G']],
        CommandId::GosPub => seq![seq!['P', 'U', 'B']],
        CommandId::GosSub => seq![seq!['S', 'U', 'B']],
        CommandId::Ping => seq![seq!['P', 'I', 'N', 'G']],
        CommandId::NeighSub => seq![seq!['S', 'U', 'B']],
        CommandId::NeighList => seq![seq!['L', 'I', 'S', 'T']],
        CommandId::NeighUnresolved => seq![seq!['L', 'I', 'S', 'T'], seq!['U', 'N', 'R', 'E', 'S', 'O', 'L', 'V', 'E', 'D']],
        CommandId::ScriptDeploySelf => seq![seq!['D', 'E', 'P', 'L', 'O', 'Y'], seq!['S', 'E', 'L', 'F']],
        CommandId::ScriptDeployRemote => seq![seq!['D', 'E', 'P', 'L', 'O', 'Y']],
        CommandId::ScriptLocalDeploySelf => seq![seq!['L', 'O', 'C', 'A', 'L'], seq!['D', 'E', 'P', 'L', 'O', 'Y'], seq!['S', 'E', 'L', 'F']],
        CommandId::ScriptLocalDeployRemote => seq![seq!['L', 'O', 'C', 'A', 'L'], seq!['D', 'E', 'P', 'L', 'O', 'Y']],
        CommandId::ScriptList => seq![seq!['L', 'I', 'S', 'T']],
        CommandId::ScriptStopAll => seq![seq!['S', 'T', 'O', 'P'], seq!['A', 'L', 'L']],
        CommandId::ScriptStopOne => seq![seq!['S', 'T', 'O', 'P']],
        CommandId::MeId => seq![seq!['I', 'D']],
        CommandId::FileList => seq![seq!['L', 'I', 'S', 'T']],
        CommandId::FileImport => seq![seq!['I', 'M', 'P', 'O', 'R', 'T']],
        CommandId::FileGet => seq![seq!['G', 'E', 'T']],
    }
}

/// The names of the parameters of a command, which follow its fixed words.
pub open spec fn command_params(c: CommandId) -> Seq<Seq<char>> {
    match c {
        CommandId::KadPut => seq![seq!['k', 'e', 'y'], seq!['v', 'a', 'l', 'u', 'e']],
        CommandId::KadGet => seq![seq!['k', 'e', 'y']],
        CommandId::KadBootstrap => seq![],
        CommandId::KadProvide => seq![seq!['k', 'e', 'y']],
        CommandId::KadGetProviders => seq![seq!['k', 'e', 'y']],
        CommandId::GosPing => seq![],
        CommandId::GosPub => seq![seq!['t', 'o', 'p', 'i', 'c'], seq!['m', 'e', 's', 's', 'a', 'g', 'e']],
        CommandId::GosSub => seq![seq!['t', 'o', 'p', 'i', 'c']],
        CommandId::Ping => seq![],
        CommandId::NeighSub => seq![],
        CommandId::NeighList => seq![],
        CommandId::NeighUnresolved => seq![],
        CommandId::ScriptDeploySelf => seq![seq!['i', 'm', 'a', 'g', 'e'], seq!['p', 'o', 'r', 't', 's']],
        CommandId::ScriptDeployRemote => seq![seq!['p', 'e', 'e', 'r', '_', 'i', 'd'], seq!['i', 'm', 'a', 'g', 'e'], seq!['p', 'o', 'r', 't', 's']],
        CommandId::ScriptLocalDeploySelf => seq![seq!['i', 'm', 'a', 'g', 'e'], seq!['p', 'o', 'r', 't', 's']],
        CommandId::ScriptLocalDeployRemote => seq![seq!['p', 'e', 'e', 'r', '_', 'i', 'd'], seq!['i', 'm', 'a', 'g', 'e'], seq!['p', 'o', 'r', 't', 's']],
        CommandId::ScriptList => seq![seq!['p', 'e', 'e', 'r', '_', 'i', 'd']],
        CommandId::ScriptStopAll => seq![seq!['p', 'e', 'e', 'r', '_', 'i', 'd']],
        CommandId::ScriptStopOne => seq![seq!['p', 'e', 'e', 'r', '_', 'i', 'd'], seq!['i', 'd']],
        CommandId::MeId => seq![],
        CommandId::FileList => seq![],
        CommandId::FileImport => seq![seq!['p', 'a', 't', 'h']],
        CommandId::FileGet => seq![seq!['i', 'd'], seq!['h', 'a', 's', 'h'], seq!['p', 'a', 't', 'h']],
    }
}

/// What a command does, as its help says.
pub open spec fn command_description(c: CommandId) -> Seq<char> {
    match c {
        CommandId::KadPut => seq!['P', 'u', 'b', 'l', 'i', 's', 'h', ' ', 't', 'h', 'e', ' ', 'r', 'e', 'c', 'o', 'r', 'd', ' ', 'f', 'o', 'r', ' ', 't', 'h', 'e', ' ', 'g', 'i', 'v', 'e', 'n', ' ', 'k', 'e', 'y'],
        CommandId::KadGet => seq!['G', 'e', 't', ' ', 't', 'h', 'e', ' ', 'r', 'e', 'c', 'o', 'r', 'd', ' ', 'f', 'o', 'r', ' ', 't', 'h', 'e', ' ', 'g', 'i', 'v', 'e', 'n', ' ', 'k', 'e', 'y'],
        CommandId::KadBootstrap => seq!['B', 'o', 'o', 't', 's', 't', 'r', 'a', 'p', ' ', 't', 'h', 'e', ' ', 'K', 'a', 'd', 'e', 'm', 'l', 'i', 'a', ' ', 'D', 'H', 'T'],
        CommandId::KadProvide => seq!['A', 'n', 'n', 'o', 'u', 'n', 'c', 'e', ' ', 't', 'h', 'a', 't', ' ', 't', 'h', 'i', 's', ' ', 'n', 'o', 'd', 'e', ' ', 'c', 'a', 'n', ' ', 'p', 'r', 'o', 'v', 'i', 'd', 'e', ' ', 't', 'h', 'e', ' ', 'v', 'a', 'l', 'u', 'e', ' ', 'f', 'o', 'r', ' ', 't', 'h', 'e', ' ', 'g', 'i', 'v', 'e', 'n', ' ', 'k', 'e', 'y'],
        CommandId::KadGetProviders => seq!['G', 'e', 't', ' ', 't', 'h', 'e', ' ', 'p', 'r', 'o', 'v', 'i', 'd', 'e', 'r', 's', ' ', 'f', 'o', 'r', ' ', 't', 'h', 'e', ' ', 'g', 'i', 'v', 'e', 'n', ' ', 'k', 'e', 'y'],
        CommandId::GosPing => seq!['R', 'e', 's', 'p', 'o', 'n', 'd', ' ', 't', 'o', ' ', 'p', 'i', 'n', 'g', ' ', 'm', 'e', 's', 's', 'a', 'g', 'e', 's'],
        CommandId::GosPub => seq!['P', 'u', 'b', 'l', 'i', 's', 'h', ' ', 'a', ' ', 'm', 'e', 's', 's', 'a', 'g', 'e', ' ', 't', 'o', ' ', 'a', ' ', 'g', 'i', 'v', 'e', 'n', ' ', 't', 'o', 'p', 'i', 'c'],
        CommandId::GosSub => seq!['S', 'u', 'b', 's', 'c', 'r', 'i', 'b', 'e', ' ', 't', 'o', ' ', 'a', ' ', 'g', 'i', 'v', 'e', 'n', ' ', 't', 'o', 'p', 'i', 'c'],
        CommandId::Ping => seq!['P', 'i', 'n', 'g', ' ', 't', 'h', 'e', ' ', 'n', 'e', 't', 'w', 'o', 'r', 'k'],
        CommandId::NeighSub => seq!['S', 'u', 'b', 's', 'c', 'r', 'i', 'b', 'e', ' ', 't', 'o', ' ', 'n', 'e', 'i', 'g', 'h', 'b', 'o', 'u', 'r', 'h', 'o', 'o', 'd', ' ', 'e', 'v', 'e', 'n', 't', 's'],
        CommandId::NeighList => seq!['L', 'i', 's', 't', ' ', 'r', 'e', 's', 'o', 'l', 'v', 'e', 'd', ' ', 'n', 'e', 'i', 'g', 'h', 'b', 'o', 'u', 'r', 's'],
        CommandId::NeighUnresolved => seq!['L', 'i', 's', 't', ' ', 'u', 'n', 's', 'r', 'e', 's', 'o', 'l', 'v', 'e', 'd', ' ', 'n', 'e', 'i', 'g', 'h', 'b', 'o', 'u', 'r', 's'],
        CommandId::ScriptDeploySelf => seq!['D', 'e', 'p', 'l', 'o', 'y', ' ', 'a', ' ', 'd', 'o', 'c', 'k', 'e', 'r', ' ', 'i', 'm', 'a', 'g', 'e', ' ', 'l', 'o', 'c', 'a', 'l', 'l', 'y', ' ', 'f', 'r', 'o', 'm', ' ', 't', 'h', 'e', ' ', 'd', 'o', 'c', 'k', 'e', 'r', ' ', 'r', 'e', 'g', 'i', 's', 't', 'r', 'y'],
        CommandId::ScriptDeployRemote => seq!['D', 'e', 'p', 'l', 'o', 'y', ' ', 'a', ' ', 'd', 'o', 'c', 'k', 'e', 'r', ' ', 'i', 'm', 'a', 'g', 'e', ' ', 't', 'o', ' ', 'a', ' ', 'r', 'e', 'm', 'o', 't', 'e', ' ', 'p', 'e', 'e', 'r', ' ', 'f', 'r', 'o', 'm', ' ', 't', 'h', 'e', ' ', 'd', 'o', 'c', 'k', 'e', 'r', ' ', 'r', 'e', 'g', 'i', 's', 't', 'r', 'y'],
        CommandId::ScriptLocalDeploySelf => seq!['D', 'e', 'p', 'l', 'o', 'y', ' ', 'a', ' ', 'l', 'o', 'c', 'a', 'l', ' ', 'd', 'o', 'c', 'k', 'e', 'r', ' ', 'i', 'm', 'a', 'g', 'e', ' ', 't', 'o', ' ', 'a', ' ', 'r', 'e', 'm', 'o', 't', 'e', ' ', 'p', 'e', 'e', 'r'],
        CommandId::ScriptLocalDeployRemote => seq!['D', 'e', 'p', 'l', 'o', 'y', ' ', 'a', ' ', 'l', 'o', 'c', 'a', 'l', ' ', 'd', 'o', 'c', 'k', 'e', 'r', ' ', 'i', 'm', 'a', 'g', 'e', ' ', 't', 'o', ' ', 'a', ' ', 'r', 'e', 'm', 'o', 't', 'e', ' ', 'p', 'e', 'e', 'r'],
        CommandId::ScriptList => seq!['L', 'i', 's', 't', ' ', 'r', 'u', 'n', 'n', 'i', 'n', 'g', ' ', 's', 'c', 'r', 'i', 'p', 't', 's'],
        CommandId::ScriptStopAll => seq!['S', 't', 'o', 'p', ' ', 'a', 'l', 'l', ' ', 'c', 'o', 'n', 't', 'a', 'i', 'n', 'e', 'r', 's'],
        CommandId::ScriptStopOne => seq!['S', 't', 'o', 'p', ' ', 'a', ' ', 'c', 'o', 'n', 't', 'a', 'i', 'n', 'e', 'r'],
        CommandId::MeId => seq!['P', 'r', 'i', 'n', 't', ' ', 't', 'h', 'e', ' ', 'l', 'o', 'c', 'a', 'l', ' ', 'p', 'e', 'e', 'r', ' ', 'I', 'D'],
        CommandId::FileList => seq!['L', 'i', 's', 't', ' ', 'f', 'i', 'l', 'e', 's'],
        CommandId::FileImport => seq!['I', 'm', 'p', 'o', 'r', 't', ' ', 'a', ' ', 'f', 'i', 'l', 'e'],
        CommandId::FileGet => seq!['R', 'e', 't', 'r', 'i', 'e', 'v', 'e', ' ', 'a', ' ', 'f', 'i', 'l', 'e'],
    }
}

impl FamilyId {
    pub fn name(&self) -> (r: Vec<char>)
        ensures
            r@ == family_name(*self),
    {
        match self {
            FamilyId::Kad => vec!['K', 'a', 'd', 'e', 'm', 'l', 'i', 'a'],
            FamilyId::GossipSub => vec!['G', 'o', 's', 's', 'i', 'p', 'S', 'u', 'b'],
            FamilyId::Ping => vec!['P', 'i', 'n', 'g'],
            FamilyId::Neigh => vec!['N', 'e', 'i', 'g', 'h', 'b', 'o', 'u', 'r', 'h', 'o', 'o', 'd'],
            FamilyId::Script => vec!['S', 'c', 'r', 'i', 'p', 't', 'i', 'n', 'g'],
            FamilyId::Me => vec!['M', 'e'],
            FamilyId::File => vec!['F', 'i', 'l', 'e', ' ', 'T', 'r', 'a', 'n', 's', 'f', 'e', 'r'],
        }
    }

    pub fn family_prefix(&self) -> (r: Vec<char>)
        ensures
            r@ == family_prefix(*self),
    {
        match self {
            FamilyId::Kad => vec!['K', 'A', 'D'],
            FamilyId::GossipSub => vec!['G', 'O', 'S'],
            FamilyId::Ping => vec!['P', 'I', 'N', 'G'],
            FamilyId::Neigh => vec!['N', 'E', 'I', 'G', 'H'],
            FamilyId::Script => vec!['S', 'C', 'R', 'I', 'P', 'T'],
            FamilyId::Me => vec!['M', 'E'],
            FamilyId::File => vec!['F', 'I', 'L', 'E'],
        }
    }

    pub fn commands(&self) -> (r: Vec<CommandId>)
        ensures
            r@ == family_commands(*self),
    {
        match self {
            FamilyId::Kad => vec![CommandId::KadPut, CommandId::KadGet, CommandId::KadBootstrap, CommandId::KadProvide, CommandId::KadGetProviders],
            FamilyId::GossipSub => vec![CommandId::GosPing, CommandId::GosPub, CommandId::GosSub],
            FamilyId::Ping => vec![CommandId::Ping],
            FamilyId::Neigh => vec![CommandId::NeighSub, CommandId::NeighList, CommandId::NeighUnresolved],
            FamilyId::Script => vec![CommandId::ScriptDeploySelf, CommandId::ScriptDeployRemote, CommandId::ScriptLocalDeploySelf, CommandId::ScriptLocalDeployRemote, CommandId::ScriptList, CommandId::ScriptStopAll, CommandId::ScriptStopOne],
            FamilyId::Me => vec![CommandId::MeId],
            FamilyId::File => vec![CommandId::FileList, CommandId::FileImport, CommandId::FileGet],
        }
    }
}

/// The families, in order.
pub fn families() -> (r: Vec<FamilyId>)
    ensures
        r@ == all_families(),
{
    vec![FamilyId::Kad, FamilyId::GossipSub, FamilyId::Ping, FamilyId::Neigh, FamilyId::Script, FamilyId::Me, FamilyId::File]
}

impl CommandId {
    pub fn family(&self) -> (r: FamilyId)
        ensures
            r == command_family(*self),
    {
        match self {
            CommandId::KadPut => FamilyId::Kad,
            CommandId::KadGet => FamilyId::Kad,
            CommandId::KadBootstrap => FamilyId::Kad,
            CommandId::KadProvide => FamilyId::Kad,
            CommandId::KadGetProviders => FamilyId::Kad,
            CommandId::GosPing => FamilyId::GossipSub,
            CommandId::GosPub => FamilyId::GossipSub,
            CommandId::GosSub => FamilyId::GossipSub,
            CommandId::Ping => FamilyId::Ping,
            CommandId::NeighSub => FamilyId::Neigh,
            CommandId::NeighList => FamilyId::Neigh,
            CommandId::NeighUnresolved => FamilyId::Neigh,
            CommandId::ScriptDeploySelf => FamilyId::Script,
            CommandId::ScriptDeployRemote => FamilyId::Script,
            CommandId::ScriptLocalDeploySelf => FamilyId::Script,
            CommandId::ScriptLocalDeployRemote => FamilyId::Script,
            CommandId::ScriptList => FamilyId::Script,
            CommandId::ScriptStopAll => FamilyId::Script,
            CommandId::ScriptStopOne => FamilyId::Script,
            CommandId::MeId => FamilyId::Me,
            CommandId::FileList => FamilyId::File,
            CommandId::FileImport => FamilyId::File,
            CommandId::FileGet => FamilyId::File,
        }
    }

    pub fn labels(&self) -> (r: Vec<Vec<char>>)
        ensures
            r@.map_values(|v: Vec<char>| v@) == command_labels(*self),
    {
        let r = match self {
            CommandId::KadPut => vec![vec!['P', 'U', 'T']],
            CommandId::KadGet => vec![vec!['G', 'E', 'T']],
            CommandId::KadBootstrap => vec![vec!['B', 'O', 'O', 'T']],
            CommandId::KadProvide => vec![vec!['P', 'R', 'O', 'V', 'I', 'D', 'E']],
            CommandId::KadGetProviders => vec![vec!['P', 'R', 'O', 'V', 'I', 'D', 'E', 'R', 'S']],
            CommandId::GosPing => vec![vec!['P', 'I', 'N', 'G']],
            CommandId::GosPub => vec![vec!['P', 'U', 'B']],
            CommandId::GosSub => vec![vec!['S', 'U', 'B']],
            CommandId::Ping => vec![vec!['P', 'I', 'N', 'G']],
            CommandId::NeighSub => vec![vec!['S', 'U', 'B']],
            CommandId::NeighList => vec![vec!['L', 'I', 'S', 'T']],
            CommandId::NeighUnresolved => vec![vec!['L', 'I', 'S', 'T'], vec!['U', 'N', 'R', 'E', 'S', 'O', 'L', 'V', 'E', 'D']],
            CommandId::ScriptDeploySelf => vec![vec!['D', 'E', 'P', 'L', 'O', 'Y'], vec!['S', 'E', 'L', 'F']],
            CommandId::ScriptDeployRemote => vec![vec!['D', 'E', 'P', 'L', 'O', 'Y']],
            CommandId::ScriptLocalDeploySelf => vec![vec!['L', 'O', 'C', 'A', 'L'], vec!['D', 'E', 'P', 'L', 'O', 'Y'], vec!['S', 'E', 'L', 'F']],
            CommandId::ScriptLocalDeployRemote => vec![vec!['L', 'O', 'C', 'A', 'L'], vec!['D', 'E', 'P', 'L', 'O', 'Y']],
            CommandId::ScriptList => vec![vec!['L', 'I', 'S', 'T']],
            CommandId::ScriptStopAll => vec![vec!['S', 'T', 'O', 'P'], vec!['A', 'L', 'L']],
            CommandId::ScriptStopOne => vec![vec!['S', 'T', 'O', 'P']],
            CommandId::MeId => vec![vec!['I', 'D']],
            CommandId::FileList => vec![vec!['L', 'I', 'S', 'T']],
            CommandId::FileImport => vec![vec!['I', 'M', 'P', 'O', 'R', 'T']],
            CommandId::FileGet => vec![vec!['G', 'E', 'T']],
        };
        assert(r@.map_values(|v: Vec<char>| v@) =~= command_labels(*self));
        r
    }

    pub fn params(&self) -> (r: Vec<Vec<char>>)
        ensures
            r@.map_values(|v: Vec<char>| v@) == command_params(*self),
    {
        let r = match self {
            CommandId::KadPut => vec![vec!['k', 'e', 'y'], vec!['v', 'a', 'l', 'u', 'e']],
            CommandId::KadGet => vec![vec!['k', 'e', 'y']],
            CommandId::KadBootstrap => vec![],
            CommandId::KadProvide => vec![vec!['k', 'e', 'y']],
            CommandId::KadGetProviders => vec![vec!['k', 'e', 'y']],
            CommandId::GosPing => vec![],
            CommandId::GosPub => vec![vec!['t', 'o', 'p', 'i', 'c'], vec!['m', 'e', 's', 's', 'a', 'g', 'e']],
            CommandId::GosSub => vec![vec!['t', 'o', 'p', 'i', 'c']],
            CommandId::Ping => vec![],
            CommandId::NeighSub => vec![],
            CommandId::NeighList => vec![],
            CommandId::NeighUnresolved => vec![],
            CommandId::ScriptDeploySelf => vec![vec!['i', 'm', 'a', 'g', 'e'], vec!['p', 'o', 'r', 't', 's']],
            CommandId::ScriptDeployRemote => vec![vec!['p', 'e', 'e', 'r', '_', 'i', 'd'], vec!['i', 'm', 'a', 'g', 'e'], vec!['p', 'o', 'r', 't', 's']],
            CommandId::ScriptLocalDeploySelf => vec![vec!['i', 'm', 'a', 'g', 'e'], vec!['p', 'o', 'r', 't', 's']],
            CommandId::ScriptLocalDeployRemote => vec![vec!['p', 'e', 'e', 'r', '_', 'i', 'd'], vec!['i', 'm', 'a', 'g', 'e'], vec!['p', 'o', 'r', 't', 's']],
            CommandId::ScriptList => vec![vec!['p', 'e', 'e', 'r', '_', 'i', 'd']],
            CommandId::ScriptStopAll => vec![vec!['p', 'e', 'e', 'r', '_', 'i', 'd']],
            CommandId::ScriptStopOne => vec![vec!['p', 'e', 'e', 'r', '_', 'i', 'd'], vec!['i', 'd']],
            CommandId::MeId => vec![],
            CommandId::FileList => vec![],
            CommandId::FileImport => vec![vec!['p', 'a', 't', 'h']],
            CommandId::FileGet => vec![vec!['i', 'd'], vec!['h', 'a', 's', 'h'], vec!['p', 'a', 't', 'h']],
        };
        assert(r@.map_values(|v: Vec<char>| v@) =~= command_params(*self));
        r
    }

    pub fn description(&self) -> (r: Vec<char>)
        ensures
            r@ == command_description(*self),
    {
        match self {
            CommandId::KadPut => vec!['P', 'u', 'b', 'l', 'i', 's', 'h', ' ', 't', 'h', 'e', ' ', 'r', 'e', 'c', 'o', 'r', 'd', ' ', 'f', 'o', 'r', ' ', 't', 'h', 'e', ' ', 'g', 'i', 'v', 'e', 'n', ' ', 'k', 'e', 'y'],
            CommandId::KadGet => vec!['G', 'e', 't', ' ', 't', 'h', 'e', ' ', 'r', 'e', 'c', 'o', 'r', 'd', ' ', 'f', 'o', 'r', ' ', 't', 'h', 'e', ' ', 'g', 'i', 'v', 'e', 'n', ' ', 'k', 'e', 'y'],
            CommandId::KadBootstrap => vec!['B', 'o', 'o', 't', 's', 't', 'r', 'a', 'p', ' ', 't', 'h', 'e', ' ', 'K', 'a', 'd', 'e', 'm', 'l', 'i', 'a', ' ', 'D', 'H', 'T'],
            CommandId::KadProvide => vec!['A', 'n', 'n', 'o', 'u', 'n', 'c', 'e', ' ', 't', 'h', 'a', 't', ' ', 't', 'h', 'i', 's', ' ', 'n', 'o', 'd', 'e', ' ', 'c', 'a', 'n', ' ', 'p', 'r', 'o', 'v', 'i', 'd', 'e', ' ', 't', 'h', 'e', ' ', 'v', 'a', 'l', 'u', 'e', ' ', 'f', 'o', 'r', ' ', 't', 'h', 'e', ' ', 'g', 'i', 'v', 'e', 'n', ' ', 'k', 'e', 'y'],
            CommandId::KadGetProviders => vec!['G', 'e', 't', ' ', 't', 'h', 'e', ' ', 'p', 'r', 'o', 'v', 'i', 'd', 'e', 'r', 's', ' ', 'f', 'o', 'r', ' ', 't', 'h', 'e', ' ', 'g', 'i', 'v', 'e', 'n', ' ', 'k', 'e', 'y'],
            CommandId::GosPing => vec!['R', 'e', 's', 'p', 'o', 'n', 'd', ' ', 't', 'o', ' ', 'p', 'i', 'n', 'g', ' ', 'm', 'e', 's', 's', 'a', 'g', 'e', 's'],
            CommandId::GosPub => vec!['P', 'u', 'b', 'l', 'i', 's', 'h', ' ', 'a', ' ', 'm', 'e', 's', 's', 'a', 'g', 'e', ' ', 't', 'o', ' ', 'a', ' ', 'g', 'i', 'v', 'e', 'n', ' ', 't', 'o', 'p', 'i', 'c'],
            CommandId::GosSub => vec!['S', 'u', 'b', 's', 'c', 'r', 'i', 'b', 'e', ' ', 't', 'o', ' ', 'a', ' ', 'g', 'i', 'v', 'e', 'n', ' ', 't', 'o', 'p', 'i', 'c'],
            CommandId::Ping => vec!['P', 'i', 'n', 'g', ' ', 't', 'h', 'e', ' ', 'n', 'e', 't', 'w', 'o', 'r', 'k'],
            CommandId::NeighSub => vec!['S', 'u', 'b', 's', 'c', 'r', 'i', 'b', 'e', ' ', 't', 'o', ' ', 'n', 'e', 'i', 'g', 'h', 'b', 'o', 'u', 'r', 'h', 'o', 'o', 'd', ' ', 'e', 'v', 'e', 'n', 't', 's'],
            CommandId::NeighList => vec!['L', 'i', 's', 't', ' ', 'r', 'e', 's', 'o', 'l', 'v', 'e', 'd', ' ', 'n', 'e', 'i', 'g', 'h', 'b', 'o', 'u', 'r', 's'],
            CommandId::NeighUnresolved => vec!['L', 'i', 's', 't', ' ', 'u', 'n', 's', 'r', 'e', 's', 'o', 'l', 'v', 'e', 'd', ' ', 'n', 'e', 'i', 'g', 'h', 'b', 'o', 'u', 'r', 's'],
            CommandId::ScriptDeploySelf => vec!['D', 'e', 'p', 'l', 'o', 'y', ' ', 'a', ' ', 'd', 'o', 'c', 'k', 'e', 'r', ' ', 'i', 'm', 'a', 'g', 'e', ' ', 'l', 'o', 'c', 'a', 'l', 'l', 'y', ' ', 'f', 'r', 'o', 'm', ' ', 't', 'h', 'e', ' ', 'd', 'o', 'c', 'k', 'e', 'r', ' ', 'r', 'e', 'g', 'i', 's', 't', 'r', 'y'],
            CommandId::ScriptDeployRemote => vec!['D', 'e', 'p', 'l', 'o', 'y', ' ', 'a', ' ', 'd', 'o', 'c', 'k', 'e', 'r', ' ', 'i', 'm', 'a', 'g', 'e', ' ', 't', 'o', ' ', 'a', ' ', 'r', 'e', 'm', 'o', 't', 'e', ' ', 'p', 'e', 'e', 'r', ' ', 'f', 'r', 'o', 'm', ' ', 't', 'h', 'e', ' ', 'd', 'o', 'c', 'k', 'e', 'r', ' ', 'r', 'e', 'g', 'i', 's', 't', 'r', 'y'],
            CommandId::ScriptLocalDeploySelf => vec!['D', 'e', 'p', 'l', 'o', 'y', ' ', 'a', ' ', 'l', 'o', 'c', 'a', 'l', ' ', 'd', 'o', 'c', 'k', 'e', 'r', ' ', 'i', 'm', 'a', 'g', 'e', ' ', 't', 'o', ' ', 'a', ' ', 'r', 'e', 'm', 'o', 't', 'e', ' ', 'p', 'e', 'e', 'r'],
            CommandId::ScriptLocalDeployRemote => vec!['D', 'e', 'p', 'l', 'o', 'y', ' ', 'a', ' ', 'l', 'o', 'c', 'a', 'l', ' ', 'd', 'o', 'c', 'k', 'e', 'r', ' ', 'i', 'm', 'a', 'g', 'e', ' ', 't', 'o', ' ', 'a', ' ', 'r', 'e', 'm', 'o', 't', 'e', ' ', 'p', 'e', 'e', 'r'],
            CommandId::ScriptList => vec!['L', 'i', 's', 't', ' ', 'r', 'u', 'n', 'n', 'i', 'n', 'g', ' ', 's', 'c', 'r', 'i', 'p', 't', 's'],
            CommandId::ScriptStopAll => vec!['S', 't', 'o', 'p', ' ', 'a', 'l', 'l', ' ', 'c', 'o', 'n', 't', 'a', 'i', 'n', 'e', 'r', 's'],
            CommandId::ScriptStopOne => vec!['S', 't', 'o', 'p', ' ', 'a', ' ', 'c', 'o', 'n', 't', 'a', 'i', 'n', 'e', 'r'],
            CommandId::MeId => vec!['P', 'r', 'i', 'n', 't', ' ', 't', 'h', 'e', ' ', 'l', 'o', 'c', 'a', 'l', ' ', 'p', 'e', 'e', 'r', ' ', 'I', 'D'],
            CommandId::FileList => vec!['L', 'i', 's', 't', ' ', 'f', 'i', 'l', 'e', 's'],
            CommandId::FileImport => vec!['I', 'm', 'p', 'o', 'r', 't', ' ', 'a', ' ', 'f', 'i', 'l', 'e'],
            CommandId::FileGet => vec!['R', 'e', 't', 'r', 'i', 'e', 'v', 'e', ' ', 'a', ' ', 'f', 'i', 'l', 'e'],
        }
    }
}

// kad
#[allow(non_upper_case_globals)]
pub const KadCommands: FamilyId = FamilyId::Kad;
#[allow(non_upper_case_globals)]
pub const KadPutCommand: CommandId = CommandId::KadPut;
#[allow(non_upper_case_globals)]
pub const KadGetCommand: CommandId = CommandId::KadGet;
#[allow(non_upper_case_globals)]
pub const KadBootstrapCommand: CommandId = CommandId::KadBootstrap;
#[allow(non_upper_case_globals)]
pub const KadProvideCommand: CommandId = CommandId::KadProvide;
#[allow(non_upper_case_globals)]
pub const KadGetProvidersCommand: CommandId = CommandId::KadGetProviders;
// gos
#[allow(non_upper_case_globals)]
pub const GossipSubCommands: FamilyId = FamilyId::GossipSub;
#[allow(non_upper_case_globals)]
pub const GosPingCommand: CommandId = CommandId::GosPing;
#[allow(non_upper_case_globals)]
pub const GosPubCommand: CommandId = CommandId::GosPub;
#[allow(non_upper_case_globals)]
pub const GosSubCommand: CommandId = CommandId::GosSub;
// ping
#[allow(non_upper_case_globals)]
pub const PingCommands: FamilyId = FamilyId::Ping;
#[allow(non_upper_case_globals)]
pub const PingCommand: CommandId = CommandId::Ping;
// neigh
#[allow(non_upper_case_globals)]
pub const NeighCommands: FamilyId = FamilyId::Neigh;
#[allow(non_upper_case_globals)]
pub const NeighSubCommand: CommandId = CommandId::NeighSub;
#[allow(non_upper_case_globals)]
pub const NeighListCommand: CommandId = CommandId::NeighList;
#[allow(non_upper_case_globals)]
pub const NeighUnresolvedCommand: CommandId = CommandId::NeighUnresolved;
// script
#[allow(non_upper_case_globals)]
pub const ScriptCommands: FamilyId = FamilyId::Script;
#[allow(non_upper_case_globals)]
pub const ScriptDeploySelfCommand: CommandId = CommandId::ScriptDeploySelf;
#[allow(non_upper_case_globals)]
pub const ScriptDeployRemoteCommand: CommandId = CommandId::ScriptDeployRemote;
#[allow(non_upper_case_globals)]
pub const ScriptLocalDeploySelfCommand: CommandId = CommandId::ScriptLocalDeploySelf;
#[allow(non_upper_case_globals)]
pub const ScriptLocalDeployRemoteCommand: CommandId = CommandId::ScriptLocalDeployRemote;
#[allow(non_upper_case_globals)]
pub const ScriptListCommand: CommandId = CommandId::ScriptList;
#[allow(non_upper_case_globals)]
pub const ScriptStopAllCommand: CommandId = CommandId::ScriptStopAll;
#[allow(non_upper_case_globals)]
pub const ScriptStopOneCommand: CommandId = CommandId::ScriptStopOne;
// me
#[allow(non_upper_case_globals)]
pub const MeCommands: FamilyId = FamilyId::Me;
#[allow(non_upper_case_globals)]
pub const MeIdCommand: CommandId = CommandId::MeId;
// file
#[allow(non_upper_case_globals)]
pub const FileCommands: FamilyId = FamilyId::File;
#[allow(non_upper_case_globals)]
pub const FileListCommand: CommandId = CommandId::FileList;
#[allow(non_upper_case_globals)]
pub const FileImportCommand: CommandId = CommandId::FileImport;
#[allow(non_upper_case_globals)]
pub const FileGetCommand: CommandId = CommandId::FileGet;

/// Every token followed by one space.
pub open spec fn spaced(ts: Seq<Seq<char>>) -> Seq<char>
    decreases ts.len(),
{
    if ts.len() == 0 {
        Seq::empty()
    } else {
        spaced(ts.drop_last()) + ts.last() + seq![' ']
    }
}

/// The family prefix followed by the command's fixed words.
pub open spec fn command_words(c: CommandId) -> Seq<Seq<char>> {
    seq![family_prefix(command_family(c))] + command_labels(c)
}

/// What the shell completes a command to: its family prefix and fixed words.
pub open spec fn completion_prefix(c: CommandId) -> Seq<char> {
    trim_spec(spaced(command_words(c)))
}

/// How a command is used: its family prefix, fixed words and parameter names.
pub open spec fn example_use(c: CommandId) -> Seq<char> {
    trim_spec(spaced(command_words(c) + command_params(c)))
}

/// `input` is the command: as many words as the command has, the fixed ones equal
/// to the command's once upper-cased.
pub open spec fn matches_command(c: CommandId, input: Seq<Seq<char>>) -> bool {
    let ws = command_words(c);
    &&& input.len() == ws.len() + command_params(c).len()
    &&& forall|j: int| 0 <= j < ws.len() ==> uppercase(#[trigger] input[j]) == ws[j]
}

/// `input` asks for the help of a family: its first word is the family prefix once
/// upper-cased, its second word is `HELP`.
pub open spec fn matches_help(f: FamilyId, input: Seq<Seq<char>>) -> bool {
    &&& input.len() >= 2
    &&& uppercase(input[0]) == family_prefix(f)
    &&& input[1] == seq!['H', 'E', 'L', 'P']
}

/// The first command of `cs` that `input` is.
pub open spec fn first_match(cs: Seq<CommandId>, input: Seq<Seq<char>>) -> Option<CommandId>
    decreases cs.len(),
{
    if cs.len() == 0 {
        None
    } else if matches_command(cs[0], input) {
        Some(cs[0])
    } else {
        first_match(cs.skip(1), input)
    }
}

/// `input` is one of a family's commands, its help included.
pub open spec fn family_accepts(f: FamilyId, input: Seq<Seq<char>>) -> bool {
    matches_help(f, input) || first_match(family_commands(f), input) is Some
}

/// The first family of `fs` whose prefix begins the line.
pub open spec fn first_family(fs: Seq<FamilyId>, line: Seq<char>) -> Option<FamilyId>
    decreases fs.len(),
{
    if fs.len() == 0 {
        None
    } else if starts_with(line, family_prefix(fs[0])) {
        Some(fs[0])
    } else {
        first_family(fs.skip(1), line)
    }
}

proof fn lemma_first_match(cs: Seq<CommandId>, input: Seq<Seq<char>>)
    ensures
        first_match(cs, input) matches Some(c) ==> matches_command(c, input),
    decreases cs.len(),
{
    if cs.len() > 0 {
        lemma_first_match(cs.skip(1), input);
    }
}

/// The position in `cs` of the command that `first_match` picks: every command before
/// it is not `input`.
proof fn lemma_first_match_position(cs: Seq<CommandId>, input: Seq<Seq<char>>) -> (k: int)
    requires
        first_match(cs, input) is Some,
    ensures
        0 <= k < cs.len(),
        cs[k] == first_match(cs, input)->0,
        forall|i: int| 0 <= i < k ==> !matches_command(#[trigger] cs[i], input),
    decreases cs.len(),
{
    if matches_command(cs[0], input) {
        0
    } else {
        let k = lemma_first_match_position(cs.skip(1), input);
        assert forall|i: int| 0 <= i < k + 1 implies !matches_command(#[trigger] cs[i], input) by {
            if i > 0 {
                assert(cs[i] == cs.skip(1)[i - 1]);
            }
        }
        k + 1
    }
}

/// How many words a command takes in all: its fixed words and its parameters.
pub open spec fn command_arity(c: CommandId) -> nat {
    command_words(c).len() + command_params(c).len()
}

/// Within a family, a command with more fixed words than one tried before it takes a
/// different number of words in all, or comes first: no line is both.
proof fn lemma_family_order(f: FamilyId, k: int, i: int)
    requires
        0 <= k < i < family_commands(f).len(),
        command_words(family_commands(f)[i]).len() > command_words(family_commands(f)[k]).len(),
    ensures
        command_arity(family_commands(f)[i]) != command_arity(family_commands(f)[k]),
{
    let cs = family_commands(f);
    assert(cs[k] == family_commands(f)[k]);
    assert(cs[i] == family_commands(f)[i]);
}

/// Every command is among those of its family.
proof fn lemma_in_own_family(d: CommandId) -> (i: int)
    ensures
        0 <= i < family_commands(command_family(d)).len(),
        family_commands(command_family(d))[i] == d,
{
    match d {
        CommandId::KadPut => 0,
        CommandId::KadGet => 1,
        CommandId::KadBootstrap => 2,
        CommandId::KadProvide => 3,
        CommandId::KadGetProviders => 4,
        CommandId::GosPing => 0,
        CommandId::GosPub => 1,
        CommandId::GosSub => 2,
        CommandId::Ping => 0,
        CommandId::NeighSub => 0,
        CommandId::NeighList => 1,
        CommandId::NeighUnresolved => 2,
        CommandId::ScriptDeploySelf => 0,
        CommandId::ScriptDeployRemote => 1,
        CommandId::ScriptLocalDeploySelf => 2,
        CommandId::ScriptLocalDeployRemote => 3,
        CommandId::ScriptList => 4,
        CommandId::ScriptStopAll => 5,
        CommandId::ScriptStopOne => 6,
        CommandId::MeId => 0,
        CommandId::FileList => 0,
        CommandId::FileImport => 1,
        CommandId::FileGet => 2,
    }
}

/// Every command of a family's list belongs to that family.
proof fn lemma_family_of_listed(f: FamilyId, k: int)
    requires
        0 <= k < family_commands(f).len(),
    ensures
        command_family(family_commands(f)[k]) == f,
{
}

/// A line runs the most specific of the commands it can be: where a line's words fit
/// two commands of the family (as `SCRIPT LOCAL DEPLOY SELF image ports` fits both the
/// local deployment to this node and, with `SELF` as the peer, the one to a remote
/// peer, or `SCRIPT STOP ALL peer` both stopping all and stopping the one named `ALL`),
/// the one run has at least as many fixed words as any other that fits.
pub proof fn lemma_most_specific_command_runs(line: Seq<char>, d: CommandId)
    ensures
        line_action(line) matches LineActionView::Run { command: c, .. } ==> (
            command_family(d) == command_family(c) && matches_command(d, words(line))
                ==> command_words(d).len() <= command_words(c).len()),
{
    if line_action(line) is Run && line.len() > 0 {
        let f = first_family(all_families(), line)->0;
        let ws = words(line);
        let cs = family_commands(f);
        let c = first_match(cs, ws)->0;
        let k = lemma_first_match_position(cs, ws);
        lemma_first_match(cs, ws);
        lemma_family_of_listed(f, k);
        if command_family(d) == command_family(c) && matches_command(d, ws)
            && command_words(d).len() > command_words(c).len() {
            let i = lemma_in_own_family(d);
            assert(cs[i] == d);
            if i < k {
                assert(!matches_command(cs[i], ws));
            } else if i > k {
                lemma_family_order(f, k, i);
                assert(ws.len() == command_arity(d));
                assert(ws.len() == command_arity(c));
            }
        }
    }
}

/// One line of help for a command.
pub struct HelpMessage {
    pub completion_prefix: String,
    pub example_use: String,
    pub description: String,
}

/// What the shell does with a line.
pub enum LineAction {
    /// The line is empty.
    Skip,
    /// Show the help of the family.
    Help(FamilyId),
    /// Run the command with the words that follow its fixed words.
    Run { command: CommandId, args: Vec<String> },
    /// The line begins with the family's prefix but is none of its commands: say so and
    /// show the family's help.
    Invalid(FamilyId),
    /// No family's prefix begins the line.
    Unknown,
}

/// The abstract value of a `LineAction`.
pub enum LineActionView {
    Skip,
    Help(FamilyId),
    Run { command: CommandId, args: Seq<Seq<char>> },
    Invalid(FamilyId),
    Unknown,
}

impl View for LineAction {
    type V = LineActionView;

    open spec fn view(&self) -> LineActionView {
        match self {
            LineAction::Skip => LineActionView::Skip,
            LineAction::Help(f) => LineActionView::Help(*f),
            LineAction::Run { command, args } => LineActionView::Run {
                command: *command,
                args: args@.map_values(|a: String| a@),
            },
            LineAction::Invalid(f) => LineActionView::Invalid(*f),
            LineAction::Unknown => LineActionView::Unknown,
        }
    }
}

/// What the shell does with a line: an empty line is skipped; otherwise the first
/// family whose prefix begins the line decides, on the line's words: its help, then
/// its commands in order, else the line is invalid for it.
pub open spec fn line_action(line: Seq<char>) -> LineActionView {
    if line.len() == 0 {
        LineActionView::Skip
    } else {
        match first_family(all_families(), line) {
            None => LineActionView::Unknown,
            Some(f) => {
                let ws = words(line);
                if matches_help(f, ws) {
                    LineActionView::Help(f)
                } else {
                    match first_match(family_commands(f), ws) {
                        Some(c) => LineActionView::Run {
                            command: c,
                            args: ws.skip(command_words(c).len() as int),
                        },
                        None => LineActionView::Invalid(f),
                    }
                }
            },
        }
    }
}

fn chars_eq(a: &Vec<char>, b: &Vec<char>) -> (r: bool)
    ensures
        r == (a@ == b@),
{
    if a.len() != b.len() {
        return false;
    }
    let mut i: usize = 0;
    while i < a.len()
        invariant
            a.len() == b.len(),
            i <= a.len(),
            forall|k: int| 0 <= k < i ==> a@[k] == b@[k],
        decreases a.len() - i,
    {
        if a[i] != b[i] {
            return false;
        }
        i = i + 1;
    }
    assert(a@ =~= b@);
    true
}

/// The upper-cased characters of a word.
fn upper_chars(s: &str) -> (r: Vec<char>)
    ensures
        r@ == uppercase(s@),
{
    let u = to_uppercase(s);
    chars_of(u.as_str())
}

fn spaced_chars(ts: &Vec<Vec<char>>) -> (r: Vec<char>)
    ensures
        r@ == spaced(ts@.map_values(|v: Vec<char>| v@)),
{
    let mut out: Vec<char> = Vec::new();
    let mut i: usize = 0;
    while i < ts.len()
        invariant
            i <= ts.len(),
            out@ == spaced(ts@.take(i as int).map_values(|v: Vec<char>| v@)),
        decreases ts.len() - i,
    {
        extend_chars(&mut out, &ts[i]);
        out.push(' ');
        proof {
            let m = ts@.take(i + 1).map_values(|v: Vec<char>| v@);
            assert(m.drop_last() =~= ts@.take(i as int).map_values(|v: Vec<char>| v@));
        }
        i = i + 1;
    }
    assert(ts@.take(i as int) =~= ts@);
    out
}

impl CommandId {
    /// The family prefix followed by the command's fixed words.
    pub fn words(&self) -> (r: Vec<Vec<char>>)
        ensures
            r@.map_values(|v: Vec<char>| v@) == command_words(*self),
    {
        let mut r: Vec<Vec<char>> = Vec::new();
        r.push(self.family().family_prefix());
        let labels = self.labels();
        let mut i: usize = 0;
        while i < labels.len()
            invariant
                i <= labels.len(),
                labels@.map_values(|v: Vec<char>| v@) == command_labels(*self),
                r@.map_values(|v: Vec<char>| v@) == seq![family_prefix(command_family(*self))]
                    + command_labels(*self).take(i as int),
            decreases labels.len() - i,
        {
            let ghost old_r = r@;
            r.push(labels[i].clone());
            proof {
                assert(r@.map_values(|v: Vec<char>| v@) =~= old_r.map_values(|v: Vec<char>| v@).push(labels@[i as int]@));
                assert(command_labels(*self).take(i + 1) =~= command_labels(*self).take(i as int).push(labels@[i as int]@));
            }
            i = i + 1;
        }
        assert(command_labels(*self).take(i as int) =~= command_labels(*self));
        r
    }

    /// Whether the words of a line are this command.
    pub fn is_command(&self, input: &[&str]) -> (b: bool)
        ensures
            b == matches_command(*self, input@.map_values(|s: &str| s@)),
    {
        let ws = self.words();
        let np = self.params().len();
        let ghost inp = input@.map_values(|s: &str| s@);
        if np > input.len() || input.len() - np != ws.len() {
            return false;
        }
        let mut j: usize = 0;
        while j < ws.len()
            invariant
                j <= ws.len() <= input.len(),
                ws@.map_values(|v: Vec<char>| v@) == command_words(*self),
                inp == input@.map_values(|s: &str| s@),
                forall|k: int| 0 <= k < j ==> uppercase(#[trigger] inp[k]) == command_words(*self)[k],
            decreases ws.len() - j,
        {
            let u = upper_chars(input[j]);
            assert(inp[j as int] == input@[j as int]@);
            assert(ws@.map_values(|v: Vec<char>| v@)[j as int] == ws@[j as int]@);
            if !chars_eq(&u, &ws[j]) {
                return false;
            }
            j = j + 1;
        }
        true
    }

    /// The help line of the command.
    pub fn help_message(&self) -> (r: Vec<HelpMessage>)
        ensures
            r.len() == 1,
            r[0].completion_prefix@ == completion_prefix(*self),
            r[0].example_use@ == example_use(*self),
            r[0].description@ == command_description(*self),
    {
        let ws = self.words();
        let mut all = self.words();
        let params = self.params();
        let mut i: usize = 0;
        assert(command_params(*self).take(0) =~= Seq::<Seq<char>>::empty());
        assert(command_words(*self) + Seq::<Seq<char>>::empty() =~= command_words(*self));
        while i < params.len()
            invariant
                i <= params.len(),
                ws@.map_values(|v: Vec<char>| v@) == command_words(*self),
                params@.map_values(|v: Vec<char>| v@) == command_params(*self),
                all@.map_values(|v: Vec<char>| v@) == command_words(*self) + command_params(*self).take(i as int),
            decreases params.len() - i,
        {
            let ghost old_all = all@;
            all.push(params[i].clone());
            proof {
                assert(all@.map_values(|v: Vec<char>| v@) =~= old_all.map_values(|v: Vec<char>| v@).push(params@[i as int]@));
                assert(command_params(*self).take(i + 1) =~= command_params(*self).take(i as int).push(params@[i as int]@));
                assert(command_words(*self) + command_params(*self).take(i + 1) =~= (command_words(*self) + command_params(*self).take(i as int)).push(params@[i as int]@));
            }
            i = i + 1;
        }
        assert(command_params(*self).take(i as int) =~= command_params(*self));
        let cp = string_of(&spaced_chars(&ws));
        let eu = string_of(&spaced_chars(&all));
        let d = self.description();
        let mut r: Vec<HelpMessage> = Vec::new();
        r.push(HelpMessage {
            completion_prefix: trim(cp.as_str()),
            example_use: trim(eu.as_str()),
            description: string_of(&d),
        });
        r
    }
}

impl FamilyId {
    /// Whether the words of a line ask for this family's help.
    pub fn is_help(&self, input: &[&str]) -> (b: bool)
        ensures
            b == matches_help(*self, input@.map_values(|s: &str| s@)),
    {
        if input.len() < 2 {
            return false;
        }
        let help: Vec<char> = vec!['H', 'E', 'L', 'P'];
        let second = chars_of(input[1]);
        let first = upper_chars(input[0]);
        let prefix = self.family_prefix();
        chars_eq(&second, &help) && chars_eq(&first, &prefix)
    }

    /// The first of the family's commands that the words of a line are.
    pub fn find_command(&self, input: &[&str]) -> (r: Option<CommandId>)
        ensures
            r == first_match(family_commands(*self), input@.map_values(|s: &str| s@)),
    {
        let cs = self.commands();
        let ghost inp = input@.map_values(|s: &str| s@);
        let mut i: usize = 0;
        assert(cs@.skip(0) =~= cs@);
        while i < cs.len()
            invariant
                i <= cs.len(),
                cs@ == family_commands(*self),
                inp == input@.map_values(|s: &str| s@),
                first_match(cs@.skip(i as int), inp) == first_match(family_commands(*self), inp),
            decreases cs.len() - i,
        {
            assert(cs@.skip(i as int).skip(1) =~= cs@.skip(i + 1));
            if cs[i].is_command(input) {
                return Some(cs[i]);
            }
            i = i + 1;
        }
        None
    }

    /// Whether the words of a line are one of the family's commands, its help included.
    pub fn is_command(&self, input: &[&str]) -> (b: bool)
        ensures
            b == family_accepts(*self, input@.map_values(|s: &str| s@)),
    {
        self.is_help(input) || self.find_command(input).is_some()
    }
}

/// The first family whose prefix begins the line.
pub fn family_of_line(line: &str) -> (r: Option<FamilyId>)
    ensures
        r == first_family(all_families(), line@),
{
    let fs = families();
    let mut i: usize = 0;
    assert(fs@.skip(0) =~= fs@);
    while i < fs.len()
        invariant
            i <= fs.len(),
            fs@ == all_families(),
            first_family(fs@.skip(i as int), line@) == first_family(all_families(), line@),
        decreases fs.len() - i,
    {
        assert(fs@.skip(i as int).skip(1) =~= fs@.skip(i + 1));
        let p = string_of(&fs[i].family_prefix());
        if starts_with_exec(line, p.as_str()) {
            return Some(fs[i]);
        }
        i = i + 1;
    }
    None
}

/// Decides what the shell does with a line it has read.
pub fn line_action_of(line: &str) -> (r: LineAction)
    ensures
        r@ == line_action(line@),
{
    if line.is_empty() {
        return LineAction::Skip;
    }
    match family_of_line(line) {
        None => LineAction::Unknown,
        Some(f) => {
            let ws = split_whitespace(line);
            let mut refs: Vec<&str> = Vec::new();
            let mut i: usize = 0;
            while i < ws.len()
                invariant
                    i <= ws.len(),
                    refs@.map_values(|s: &str| s@) == ws@.take(i as int).map_values(|w: String| w@),
                decreases ws.len() - i,
            {
                let ghost old_refs = refs@;
                refs.push(ws[i].as_str());
                proof {
                    assert(refs@.map_values(|s: &str| s@) =~= old_refs.map_values(|s: &str| s@).push(ws@[i as int]@));
                    assert(ws@.take(i + 1).map_values(|w: String| w@) =~= ws@.take(i as int).map_values(|w: String| w@).push(ws@[i as int]@));
                }
                i = i + 1;
            }
            assert(ws@.take(i as int) =~= ws@);
            let input = refs.as_slice();
            if f.is_help(input) {
                LineAction::Help(f)
            } else {
                match f.find_command(input) {
                    Some(c) => {
                        proof {
                            lemma_first_match(family_commands(f), refs@.map_values(|s: &str| s@));
                        }
                        let skip = c.words().len();
                        let mut args: Vec<String> = Vec::new();
                        let mut k: usize = skip;
                        proof {
                            assert(ws@.map_values(|w: String| w@).len() == ws.len());
                            assert(ws@.map_values(|w: String| w@).subrange(skip as int, skip as int) =~= Seq::<Seq<char>>::empty());
                            assert(args@.map_values(|a: String| a@) =~= Seq::<Seq<char>>::empty());
                        }
                        while k < ws.len()
                            invariant
                                skip <= k <= ws.len(),
                                args@.map_values(|a: String| a@) == ws@.map_values(|w: String| w@).subrange(skip as int, k as int),
                            decreases ws.len() - k,
                        {
                            let ghost old_args = args@;
                            let w = ws[k].clone();
                            args.push(w);
                            assert(args@.map_values(|a: String| a@) =~= old_args.map_values(|a: String| a@).push(ws@[k as int]@));
                            assert(ws@.map_values(|w: String| w@).subrange(skip as int, k + 1) =~= ws@.map_values(|w: String| w@).subrange(skip as int, k as int).push(ws@[k as int]@));
                            k = k + 1;
                        }
                        assert(ws@.map_values(|w: String| w@).subrange(skip as int, k as int) =~= ws@.map_values(|w: String| w@).skip(skip as int));
                        LineAction::Run { command: c, args }
                    },
                    None => LineAction::Invalid(f),
                }
            }
        },
    }
}


/// A character of a command word or parameter name: an ASCII letter or `_`.
pub open spec fn is_token_char(c: char) -> bool {
    ('A' <= c && c <= 'Z') || ('a' <= c && c <= 'z') || c == '_'
}

/// A non-empty word of ASCII letters and `_`.
pub open spec fn clean_token(t: Seq<char>) -> bool {
    t.len() > 0 && forall|i: int| 0 <= i < t.len() ==> is_token_char(#[trigger] t[i])
}

pub open spec fn clean_tokens(ts: Seq<Seq<char>>) -> bool {
    forall|i: int| 0 <= i < ts.len() ==> clean_token(#[trigger] ts[i])
}

proof fn lemma_command_tokens_clean(c: CommandId)
    ensures
        clean_tokens(command_words(c) + command_params(c)),
{
    let ts = command_words(c) + command_params(c);
    assert forall|i: int| 0 <= i < ts.len() implies clean_token(#[trigger] ts[i]) by {
        assert forall|j: int| 0 <= j < ts[i].len() implies is_token_char(#[trigger] ts[i][j]) by {
        }
    }
}


/// The tokens separated by single spaces.
pub open spec fn join(ts: Seq<Seq<char>>) -> Seq<char>
    decreases ts.len(),
{
    if ts.len() == 0 {
        Seq::empty()
    } else if ts.len() == 1 {
        ts[0]
    } else {
        join(ts.drop_last()) + seq![' '] + ts.last()
    }
}

proof fn lemma_spaced_join(ts: Seq<Seq<char>>)
    requires
        ts.len() > 0,
    ensures
        spaced(ts) == join(ts) + seq![' '],
    decreases ts.len(),
{
    if ts.len() == 1 {
        assert(ts.drop_last() =~= Seq::<Seq<char>>::empty());
        assert(spaced(ts.drop_last()) == Seq::<char>::empty());
        assert(ts.last() == ts[0]);
        assert(spaced(ts) =~= join(ts) + seq![' ']);
    } else {
        lemma_spaced_join(ts.drop_last());
        assert(spaced(ts) =~= join(ts) + seq![' ']);
    }
}

/// The joined clean tokens are a non-empty run of token characters and spaces that
/// begins and ends with a token character.
proof fn lemma_join_clean(ts: Seq<Seq<char>>)
    requires
        ts.len() > 0,
        clean_tokens(ts),
    ensures
        join(ts).len() > 0,
        is_token_char(join(ts)[0]),
        is_token_char(join(ts).last()),
        forall|i: int| 0 <= i < join(ts).len() ==> is_token_char(#[trigger] join(ts)[i]) || join(ts)[i] == ' ',
    decreases ts.len(),
{
    assert(clean_token(ts[0]));
    assert(clean_token(ts[ts.len() - 1]));
    if ts.len() > 1 {
        let d = ts.drop_last();
        assert forall|i: int| 0 <= i < d.len() implies clean_token(#[trigger] d[i]) by {
            assert(d[i] == ts[i]);
        }
        lemma_join_clean(d);
        let j = join(ts);
        let l = ts.last();
        assert(j =~= join(d) + seq![' '] + l);
        assert forall|i: int| 0 <= i < j.len() implies is_token_char(#[trigger] j[i]) || j[i] == ' ' by {
            if i < join(d).len() {
                assert(j[i] == join(d)[i]);
            } else if i > join(d).len() {
                assert(j[i] == l[i - join(d).len() - 1]);
            }
        }
    } else {
        assert forall|i: int| 0 <= i < join(ts).len() implies is_token_char(#[trigger] join(ts)[i]) || join(ts)[i] == ' ' by {
            assert(join(ts)[i] == ts[0][i]);
        }
    }
}

/// Trimming the spaced clean tokens gives the tokens joined by single spaces.
proof fn lemma_trim_spaced(ts: Seq<Seq<char>>)
    requires
        ts.len() > 0,
        clean_tokens(ts),
    ensures
        trim_spec(spaced(ts)) == join(ts),
{
    lemma_spaced_join(ts);
    lemma_join_clean(ts);
    let j = join(ts);
    let s = j + seq![' '];
    assert(s.drop_last() =~= j);
    assert(crate::text::trim_end(s) == crate::text::trim_end(j));
    assert(crate::text::trim_end(j) == j);
    assert(crate::text::trim_start(j) == j);
}

proof fn lemma_join_append(a: Seq<Seq<char>>, b: Seq<Seq<char>>)
    requires
        a.len() > 0,
        b.len() > 0,
    ensures
        join(a + b) == join(a) + seq![' '] + join(b),
    decreases b.len(),
{
    if b.len() == 1 {
        assert((a + b).drop_last() =~= a);
        assert((a + b).last() == b[0]);
    } else {
        lemma_join_append(a, b.drop_last());
        assert((a + b).drop_last() =~= a + b.drop_last());
        assert(join(a + b) =~= join(a) + seq![' '] + join(b));
    }
}

proof fn lemma_clean_prefix(ts: Seq<Seq<char>>, n: int)
    requires
        clean_tokens(ts),
        0 <= n <= ts.len(),
    ensures
        clean_tokens(ts.take(n)),
        clean_tokens(ts.skip(n)),
{
    assert forall|i: int| 0 <= i < ts.take(n).len() implies clean_token(#[trigger] ts.take(n)[i]) by {
        assert(ts.take(n)[i] == ts[i]);
    }
    assert forall|i: int| 0 <= i < ts.skip(n).len() implies clean_token(#[trigger] ts.skip(n)[i]) by {
        assert(ts.skip(n)[i] == ts[i + n]);
    }
}

/// A command's completion prefix and example use are the command's words joined by
/// spaces, ASCII, and the example use begins with the completion prefix, followed by a
/// space unless they are equal.
pub proof fn lemma_help_shape(c: CommandId)
    ensures
        completion_prefix(c) == join(command_words(c)),
        example_use(c) == join(command_words(c) + command_params(c)),
        vstd::utf8::is_ascii_chars(example_use(c)),
        vstd::utf8::is_ascii_chars(completion_prefix(c)),
        command_params(c).len() == 0 ==> example_use(c) == completion_prefix(c),
        command_params(c).len() > 0 ==> example_use(c) == completion_prefix(c) + seq![' '] + join(command_params(c)),
{
    lemma_command_tokens_clean(c);
    let w = command_words(c);
    let p = command_params(c);
    let all = w + p;
    assert(all.take(w.len() as int) =~= w);
    lemma_clean_prefix(all, w.len() as int);
    lemma_trim_spaced(w);
    lemma_trim_spaced(all);
    lemma_join_clean(all);
    lemma_join_clean(w);
    if p.len() == 0 {
        assert(all =~= w);
    } else {
        assert(all.skip(w.len() as int) =~= p);
        lemma_join_append(w, p);
    }
}


proof fn lemma_token_char_not_space(c: char)
    requires
        is_token_char(c),
    ensures
        !is_white_space(c),
{
}

proof fn lemma_words_token(t: Seq<char>, s: Seq<char>, cur: Seq<char>)
    requires
        forall|i: int| 0 <= i < t.len() ==> is_token_char(#[trigger] t[i]),
    ensures
        words_from(t + s, cur) == words_from(s, cur + t),
    decreases t.len(),
{
    if t.len() == 0 {
        assert(t + s =~= s);
        assert(cur + t =~= cur);
    } else {
        let u = t + s;
        assert(u[0] == t[0]);
        lemma_token_char_not_space(t[0]);
        assert(u.skip(1) =~= t.skip(1) + s);
        lemma_words_token(t.skip(1), s, cur.push(t[0]));
        assert(cur.push(t[0]) + t.skip(1) =~= cur + t);
    }
}

proof fn lemma_words_space(j: Seq<char>, t0: Seq<char>)
    requires
        t0.len() > 0,
    ensures
        words_from(seq![' '] + j, t0) == seq![t0] + words_from(j, Seq::empty()),
{
    let sp = seq![' '] + j;
    assert(sp[0] == ' ');
    assert(is_white_space(' '));
    assert(sp.skip(1) =~= j);
}

proof fn lemma_words_join(ts: Seq<Seq<char>>)
    requires
        ts.len() > 0,
        clean_tokens(ts),
    ensures
        words(join(ts)) == ts,
    decreases ts.len(),
{
    let t0 = ts[0];
    assert(clean_token(t0));
    if ts.len() == 1 {
        lemma_words_token(t0, Seq::empty(), Seq::empty());
        assert(t0 + Seq::<char>::empty() =~= t0);
        assert(Seq::<char>::empty() + t0 =~= t0);
        assert(join(ts) == t0);
        assert(seq![t0] =~= ts);
    } else {
        let rest = ts.skip(1);
        lemma_clean_prefix(ts, 1);
        assert(ts =~= seq![t0] + rest);
        lemma_join_append(seq![t0], rest);
        assert(join(seq![t0]) == t0);
        lemma_words_join(rest);
        let j = join(rest);
        assert(join(ts) =~= t0 + (seq![' '] + j));
        lemma_words_token(t0, seq![' '] + j, Seq::empty());
        assert(Seq::<char>::empty() + t0 =~= t0);
        lemma_words_space(j, t0);
        assert(seq![t0] + rest =~= ts);
    }
}

/// Typing a command's example use gives the command's words followed by its parameter
/// names: the example use is a well-formed command line for that command.
pub proof fn lemma_example_use_words(c: CommandId)
    ensures
        words(example_use(c)) == command_words(c) + command_params(c),
        words(completion_prefix(c)) == command_words(c),
{
    lemma_help_shape(c);
    lemma_command_tokens_clean(c);
    let w = command_words(c);
    let all = w + command_params(c);
    assert(all.take(w.len() as int) =~= w);
    lemma_clean_prefix(all, w.len() as int);
    lemma_words_join(all);
    lemma_words_join(w);
}

/// Why a number did not parse (the kinds of `std::num::IntErrorKind` that unsigned
/// decimal parsing gives).
#[derive(Clone, Copy, Debug, PartialEq, Eq)]
pub enum IntErrorKind {
    Empty,
    InvalidDigit,
    PosOverflow,
}

/// A number that did not parse.
#[derive(Clone, Copy, Debug, PartialEq, Eq)]
pub struct ParseIntError {
    pub kind: IntErrorKind,
}

pub open spec fn is_digit(c: char) -> bool {
    '0' <= c && c <= '9'
}

pub open spec fn digit_value(c: char) -> int {
    (c as int) - ('0' as int)
}

/// Decimal digits read left to right onto `acc`: the first character that is not a
/// digit is an invalid digit; a value above `max` is an overflow.
pub open spec fn parse_digits(s: Seq<char>, acc: int, max: int) -> Result<int, IntErrorKind>
    decreases s.len(),
{
    if s.len() == 0 {
        Ok(acc)
    } else if !is_digit(s[0]) {
        Err(IntErrorKind::InvalidDigit)
    } else if acc * 10 + digit_value(s[0]) > max {
        Err(IntErrorKind::PosOverflow)
    } else {
        parse_digits(s.skip(1), acc * 10 + digit_value(s[0]), max)
    }
}

/// `u16::from_str`: an empty string is empty; a lone sign is an invalid digit; one
/// leading `+` is allowed; then decimal digits, at most 65535.
pub open spec fn parse_u16_spec(s: Seq<char>) -> Result<u16, IntErrorKind> {
    if s.len() == 0 {
        Err(IntErrorKind::Empty)
    } else if s.len() == 1 && (s[0] == '+' || s[0] == '-') {
        Err(IntErrorKind::InvalidDigit)
    } else {
        let digits = if s[0] == '+' { s.skip(1) } else { s };
        match parse_digits(digits, 0, 65535) {
            Ok(v) => Ok(v as u16),
            Err(e) => Err(e),
        }
    }
}

/// Parses a decimal `u16` as `str::parse` does.
pub fn parse_u16(s: &str) -> (r: Result<u16, ParseIntError>)
    ensures
        match parse_u16_spec(s@) {
            Ok(v) => r == Ok::<u16, ParseIntError>(v),
            Err(k) => r == Err::<u16, ParseIntError>(ParseIntError { kind: k }),
        },
{
    let v = chars_of(s);
    if v.len() == 0 {
        return Err(ParseIntError { kind: IntErrorKind::Empty });
    }
    if v.len() == 1 && (v[0] == '+' || v[0] == '-') {
        return Err(ParseIntError { kind: IntErrorKind::InvalidDigit });
    }
    let start: usize = if v[0] == '+' { 1 } else { 0 };
    let ghost digits = if v@[0] == '+' { v@.skip(1) } else { v@ };
    assert(digits =~= v@.skip(start as int));
    let mut acc: u32 = 0;
    let mut i: usize = start;
    while i < v.len()
        invariant
            start <= i <= v.len(),
            acc <= 65535,
            v@ == s@,
            v.len() > 0,
            !(v.len() == 1 && (v@[0] == '+' || v@[0] == '-')),
            digits == (if v@[0] == '+' { v@.skip(1) } else { v@ }),
            parse_digits(v@.skip(i as int), acc as int, 65535) == parse_digits(digits, 0, 65535),
        decreases v.len() - i,
    {
        let c = v[i];
        assert(v@.skip(i as int)[0] == c);
        assert(v@.skip(i as int).skip(1) =~= v@.skip(i + 1));
        if !('0' <= c && c <= '9') {
            assert(!is_digit(v@.skip(i as int)[0]));
            assert(parse_digits(v@.skip(i as int), acc as int, 65535) == Err::<int, IntErrorKind>(IntErrorKind::InvalidDigit));
            return Err(ParseIntError { kind: IntErrorKind::InvalidDigit });
        }
        let d = (c as u32) - ('0' as u32);
        assert(d == digit_value(c));
        if acc * 10 + d > 65535 {
            assert(parse_digits(v@.skip(i as int), acc as int, 65535) == Err::<int, IntErrorKind>(IntErrorKind::PosOverflow));
            return Err(ParseIntError { kind: IntErrorKind::PosOverflow });
        }
        acc = acc * 10 + d;
        i = i + 1;
    }
    assert(v@.skip(i as int) =~= Seq::<char>::empty());
    Ok(acc as u16)
}

/// The pieces of `s` between the separators (`str::split` on a character): there is
/// always at least one piece.
pub open spec fn split_on(s: Seq<char>, sep: char) -> Seq<Seq<char>>
    decreases s.len(),
{
    split_from(s, sep, Seq::empty())
}

pub open spec fn split_from(s: Seq<char>, sep: char, cur: Seq<char>) -> Seq<Seq<char>>
    decreases s.len(),
{
    if s.len() == 0 {
        seq![cur]
    } else if s[0] == sep {
        seq![cur] + split_from(s.skip(1), sep, Seq::empty())
    } else {
        split_from(s.skip(1), sep, cur.push(s[0]))
    }
}

/// The ports of a comma-separated list, or the error of the first that does not parse.
pub open spec fn parse_ports_spec(pieces: Seq<Seq<char>>) -> Result<Seq<u16>, IntErrorKind>
    decreases pieces.len(),
{
    if pieces.len() == 0 {
        Ok(Seq::empty())
    } else {
        match parse_u16_spec(pieces[0]) {
            Err(e) => Err(e),
            Ok(p) => match parse_ports_spec(pieces.skip(1)) {
                Ok(rest) => Ok(seq![p] + rest),
                Err(e) => Err(e),
            },
        }
    }
}

proof fn lemma_parse_ports_append(pieces: Seq<Seq<char>>, p: Seq<char>)
    requires
        parse_ports_spec(pieces) is Ok,
    ensures
        parse_ports_spec(pieces.push(p)) == match parse_u16_spec(p) {
            Ok(v) => Ok(parse_ports_spec(pieces)->Ok_0.push(v)),
            Err(e) => Err::<Seq<u16>, IntErrorKind>(e),
        },
    decreases pieces.len(),
{
    if pieces.len() == 0 {
        assert(pieces.push(p).skip(1) =~= Seq::<Seq<char>>::empty());
        assert(pieces.push(p)[0] == p);
        assert(parse_ports_spec(Seq::<Seq<char>>::empty()) == Ok::<Seq<u16>, IntErrorKind>(Seq::empty()));
        match parse_u16_spec(p) {
            Ok(v) => { assert(seq![v] + Seq::<u16>::empty() =~= Seq::<u16>::empty().push(v)); },
            Err(e) => {},
        }
    } else {
        assert(pieces.push(p).skip(1) =~= pieces.skip(1).push(p));
        lemma_parse_ports_append(pieces.skip(1), p);
        match parse_u16_spec(p) {
            Ok(v) => {
                let a = parse_u16_spec(pieces[0])->Ok_0;
                let rest = parse_ports_spec(pieces.skip(1))->Ok_0;
                assert(seq![a] + rest.push(v) =~= (seq![a] + rest).push(v));
            },
            Err(e) => {},
        }
    }
}

/// Splits a line on a separator character.
pub fn split_chars(s: &Vec<char>, sep: char) -> (r: Vec<Vec<char>>)
    ensures
        r@.map_values(|v: Vec<char>| v@) == split_on(s@, sep),
{
    let mut out: Vec<Vec<char>> = Vec::new();
    let mut cur: Vec<char> = Vec::new();
    let mut i: usize = 0;
    assert(s@.skip(0) =~= s@);
    while i < s.len()
        invariant
            i <= s.len(),
            out@.map_values(|v: Vec<char>| v@) + split_from(s@.skip(i as int), sep, cur@) == split_on(s@, sep),
        decreases s.len() - i,
    {
        assert(s@.skip(i as int).skip(1) =~= s@.skip(i + 1));
        if s[i] == sep {
            let ghost o = out@;
            let ghost c = cur@;
            out.push(cur);
            cur = Vec::new();
            assert(out@.map_values(|v: Vec<char>| v@) =~= o.map_values(|v: Vec<char>| v@).push(c));
            assert(out@.map_values(|v: Vec<char>| v@) + split_from(s@.skip(i + 1), sep, cur@)
                =~= o.map_values(|v: Vec<char>| v@) + (seq![c] + split_from(s@.skip(i + 1), sep, Seq::empty())));
        } else {
            cur.push(s[i]);
        }
        i = i + 1;
    }
    assert(s@.skip(i as int) =~= Seq::<char>::empty());
    let ghost o = out@;
    let ghost c = cur@;
    out.push(cur);
    assert(out@.map_values(|v: Vec<char>| v@) =~= o.map_values(|v: Vec<char>| v@).push(c));
    out
}

/// The ports of a comma-separated list such as `80,443`.
pub fn parse_ports(ports: &str) -> (r: Result<Vec<u16>, ParseIntError>)
    ensures
        match parse_ports_spec(split_on(ports@, ',')) {
            Ok(ps) => r matches Ok(v) && v@ == ps,
            Err(k) => r == Err::<Vec<u16>, ParseIntError>(ParseIntError { kind: k }),
        },
{
    let pieces = split_chars(&chars_of(ports), ',');
    let ghost ps = pieces@.map_values(|v: Vec<char>| v@);
    let mut out: Vec<u16> = Vec::new();
    let mut i: usize = 0;
    while i < pieces.len()
        invariant
            i <= pieces.len(),
            ps == pieces@.map_values(|v: Vec<char>| v@),
            ps == split_on(ports@, ','),
            parse_ports_spec(ps.take(i as int)) == Ok::<Seq<u16>, IntErrorKind>(out@),
        decreases pieces.len() - i,
    {
        let piece = string_of(&pieces[i]);
        proof {
            assert(ps.take(i + 1) =~= ps.take(i as int).push(ps[i as int]));
            lemma_parse_ports_append(ps.take(i as int), ps[i as int]);
        }
        match parse_u16(piece.as_str()) {
            Ok(p) => {
                out.push(p);
            },
            Err(e) => {
                proof {
                    lemma_parse_ports_prefix_err(ps, i as int + 1);
                }
                return Err(e);
            },
        }
        i = i + 1;
    }
    assert(ps.take(i as int) =~= ps);
    Ok(out)
}

proof fn lemma_parse_ports_prefix_err(ps: Seq<Seq<char>>, n: int)
    requires
        0 <= n <= ps.len(),
        parse_ports_spec(ps.take(n)) is Err,
    ensures
        parse_ports_spec(ps) == parse_ports_spec(ps.take(n)),
    decreases n,
{
    if n > 0 {
        assert(ps.take(n)[0] == ps[0]);
        assert(ps.take(n).skip(1) =~= ps.skip(1).take(n - 1));
        if parse_u16_spec(ps[0]) is Ok {
            lemma_parse_ports_prefix_err(ps.skip(1), n - 1);
        }
    }
}

/// Whether a target argument names the local node: `self` in any case.
pub fn is_self_target(arg: &str) -> (b: bool)
    ensures
        b == (uppercase(arg@) == seq!['S', 'E', 'L', 'F']),
{
    let u = upper_chars(arg);
    let s: Vec<char> = vec!['S', 'E', 'L', 'F'];
    chars_eq(&u, &s)
}


/// `n` spaces.
pub open spec fn spaces(n: int) -> Seq<char> {
    Seq::new(if n > 0 { n as nat } else { 0 }, |i: int| ' ')
}

/// `s` left-aligned in a column of `width` characters.
pub open spec fn pad_right(s: Seq<char>, width: int) -> Seq<char> {
    s + spaces(width - s.len())
}

/// `s` right-aligned in a column of `width` characters.
pub open spec fn pad_left(s: Seq<char>, width: int) -> Seq<char> {
    spaces(width - s.len()) + s
}

/// A row of the help table.
pub open spec fn help_row(example: Seq<char>, description: Seq<char>, we: int, wd: int) -> Seq<char> {
    seq![' ', ' '] + pad_right(example, we) + seq![' ', ' '] + pad_left(description, wd) + seq![' ', ' ']
}

/// The longest length among the sequences, 0 for none.
pub open spec fn max_len(ss: Seq<Seq<char>>) -> int
    decreases ss.len(),
{
    if ss.len() == 0 {
        0
    } else {
        let m = max_len(ss.drop_last());
        if ss.last().len() > m { ss.last().len() as int } else { m }
    }
}

/// The help of a family: a title line, a header row and a row per command, with the
/// example uses left-aligned and the descriptions right-aligned in columns as wide as
/// the longest of each.
pub open spec fn family_help(f: FamilyId) -> Seq<Seq<char>> {
    let cs = family_commands(f);
    let examples = cs.map_values(|c: CommandId| example_use(c));
    let descriptions = cs.map_values(|c: CommandId| command_description(c));
    let we = max_len(examples);
    let wd = max_len(descriptions);
    seq![
        family_name(f) + seq![' ', 'C', 'o', 'm', 'm', 'a', 'n', 'd', 's', ':'],
        help_row(seq!['E', 'x', 'a', 'm', 'p', 'l', 'e'], seq!['D', 'e', 's', 'c', 'r', 'i', 'p', 't', 'i', 'o', 'n'], we, wd),
    ] + Seq::new(cs.len(), |i: int| help_row(examples[i], descriptions[i], we, wd))
}

fn push_spaces(v: &mut Vec<char>, n: usize)
    ensures
        final(v)@ == old(v)@ + spaces(n as int),
{
    let mut i: usize = 0;
    while i < n
        invariant
            i <= n,
            v@ == old(v)@ + spaces(i as int),
        decreases n - i,
    {
        v.push(' ');
        i = i + 1;
        assert(v@ =~= old(v)@ + spaces(i as int));
    }
}

fn help_row_exec(example: &Vec<char>, description: &Vec<char>, we: usize, wd: usize) -> (r: String)
    ensures
        r@ == help_row(example@, description@, we as int, wd as int),
{
    let mut v: Vec<char> = Vec::new();
    v.push(' ');
    v.push(' ');
    extend_chars(&mut v, example);
    if we > example.len() {
        push_spaces(&mut v, we - example.len());
    }
    v.push(' ');
    v.push(' ');
    if wd > description.len() {
        push_spaces(&mut v, wd - description.len());
    }
    extend_chars(&mut v, description);
    v.push(' ');
    v.push(' ');
    assert(v@ =~= help_row(example@, description@, we as int, wd as int));
    string_of(&v)
}

proof fn lemma_max_len_push(ss: Seq<Seq<char>>, s: Seq<char>)
    ensures
        max_len(ss.push(s)) == if s.len() > max_len(ss) { s.len() as int } else { max_len(ss) },
{
    assert(ss.push(s).drop_last() =~= ss);
}

impl FamilyId {
    /// The lines of the family's help.
    pub fn help_lines(&self) -> (r: Vec<String>)
        ensures
            r@.map_values(|l: String| l@) == family_help(*self),
    {
        let cs = self.commands();
        let ghost examples = cs@.map_values(|c: CommandId| example_use(c));
        let ghost descriptions = cs@.map_values(|c: CommandId| command_description(c));
        let mut exs: Vec<Vec<char>> = Vec::new();
        let mut ds: Vec<Vec<char>> = Vec::new();
        let mut we: usize = 0;
        let mut wd: usize = 0;
        let mut i: usize = 0;
        while i < cs.len()
            invariant
                i <= cs.len(),
                cs@ == family_commands(*self),
                examples == cs@.map_values(|c: CommandId| example_use(c)),
                descriptions == cs@.map_values(|c: CommandId| command_description(c)),
                exs@.map_values(|v: Vec<char>| v@) == examples.take(i as int),
                ds@.map_values(|v: Vec<char>| v@) == descriptions.take(i as int),
                we == max_len(examples.take(i as int)),
                wd == max_len(descriptions.take(i as int)),
            decreases cs.len() - i,
        {
            let help = cs[i].help_message();
            let e = chars_of(help[0].example_use.as_str());
            let d = cs[i].description();
            proof {
                lemma_max_len_push(examples.take(i as int), e@);
                lemma_max_len_push(descriptions.take(i as int), d@);
                assert(examples.take(i + 1) =~= examples.take(i as int).push(e@));
                assert(descriptions.take(i + 1) =~= descriptions.take(i as int).push(d@));
            }
            if e.len() > we {
                we = e.len();
            }
            if d.len() > wd {
                wd = d.len();
            }
            let ghost oe = exs@;
            let ghost od = ds@;
            exs.push(e);
            ds.push(d);
            proof {
                assert(exs@.map_values(|v: Vec<char>| v@) =~= oe.map_values(|v: Vec<char>| v@).push(examples[i as int]));
                assert(ds@.map_values(|v: Vec<char>| v@) =~= od.map_values(|v: Vec<char>| v@).push(descriptions[i as int]));
            }
            i = i + 1;
        }
        assert(examples.take(i as int) =~= examples);
        assert(descriptions.take(i as int) =~= descriptions);
        let mut out: Vec<String> = Vec::new();
        let mut title = self.name();
        title.push(' ');
        let cmds: Vec<char> = vec!['C', 'o', 'm', 'm', 'a', 'n', 'd', 's', ':'];
        extend_chars(&mut title, &cmds);
        assert(title@ =~= family_name(*self) + seq![' ', 'C', 'o', 'm', 'm', 'a', 'n', 'd', 's', ':']);
        let t = string_of(&title);
        out.push(t);
        let ex: Vec<char> = vec!['E', 'x', 'a', 'm', 'p', 'l', 'e'];
        let de: Vec<char> = vec!['D', 'e', 's', 'c', 'r', 'i', 'p', 't', 'i', 'o', 'n'];
        let header = help_row_exec(&ex, &de, we, wd);
        assert(header@ == help_row(seq!['E', 'x', 'a', 'm', 'p', 'l', 'e'], seq!['D', 'e', 's', 'c', 'r', 'i', 'p', 't', 'i', 'o', 'n'], we as int, wd as int));
        out.push(header);
        let ghost head = out@.map_values(|l: String| l@);
        assert(head =~= seq![
            family_name(*self) + seq![' ', 'C', 'o', 'm', 'm', 'a', 'n', 'd', 's', ':'],
            help_row(seq!['E', 'x', 'a', 'm', 'p', 'l', 'e'], seq!['D', 'e', 's', 'c', 'r', 'i', 'p', 't', 'i', 'o', 'n'], we as int, wd as int),
        ]);
        assert(out@.map_values(|l: String| l@) =~= head + Seq::new(0, |j: int| help_row(examples[j], descriptions[j], we as int, wd as int)));
        let mut k: usize = 0;
        while k < exs.len()
            invariant
                k <= exs.len(),
                exs.len() == ds.len(),
                exs.len() == cs.len(),
                exs@.map_values(|v: Vec<char>| v@) == examples,
                ds@.map_values(|v: Vec<char>| v@) == descriptions,
                we == max_len(examples),
                wd == max_len(descriptions),
                head.len() == 2,
                out@.map_values(|l: String| l@) == head + Seq::new(k as nat, |j: int| help_row(examples[j], descriptions[j], we as int, wd as int)),
            decreases exs.len() - k,
        {
            let row = help_row_exec(&exs[k], &ds[k], we, wd);
            let ghost o = out@;
            out.push(row);
            proof {
                assert(exs@.map_values(|v: Vec<char>| v@)[k as int] == exs@[k as int]@);
                assert(ds@.map_values(|v: Vec<char>| v@)[k as int] == ds@[k as int]@);
                assert(out@.map_values(|l: String| l@) =~= o.map_values(|l: String| l@).push(row@));
                assert(row@ == help_row(examples[k as int], descriptions[k as int], we as int, wd as int));
                assert(out@.map_values(|l: String| l@) =~= head + Seq::new((k + 1) as nat, |j: int| help_row(examples[j], descriptions[j], we as int, wd as int)));
            }
            k = k + 1;
        }
        assert(k == cs.len());
        assert(out@.map_values(|l: String| l@) =~= family_help(*self));
        out
    }
}


proof fn lemma_split_from_nonempty(s: Seq<char>, sep: char, cur: Seq<char>)
    ensures
        split_from(s, sep, cur).len() > 0,
    decreases s.len(),
{
    if s.len() > 0 {
        if s[0] == sep {
            lemma_split_from_nonempty(s.skip(1), sep, Seq::empty());
        } else {
            lemma_split_from_nonempty(s.skip(1), sep, cur.push(s[0]));
        }
    }
}

/// Splitting always gives at least one piece.
pub proof fn lemma_split_nonempty(s: Seq<char>, sep: char)
    ensures
        split_on(s, sep).len() > 0,
{
    lemma_split_from_nonempty(s, sep, Seq::empty());
}

} // verus!
