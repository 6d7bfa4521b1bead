//! A capability-negotiation message: the `CAP` command with its target
//! (a nick or `*`), a subcommand, and the subcommand's capability list.

use vstd::prelude::*;
use vstd::pervasive::unreached;

use crate::capability::{spec_cap_text, Capability, CapabilityModel};
use crate::text::{join_strs, lemma_join_push, push_char, spec_join};

verus! {

/// The mathematical shape of the message target.
pub enum CapNickModel {
    Star,
    Nick(Seq<char>),
}

pub open spec fn spec_nick_text(n: CapNickModel) -> Seq<char> {
    match n {
        CapNickModel::Star => seq!['*'],
        CapNickModel::Nick(s) => s,
    }
}

#[derive(Debug, Clone, PartialEq)]
pub enum CapNick {
    Star,
    Nick(String),
}

impl View for CapNick {
    type V = CapNickModel;

    open spec fn view(&self) -> CapNickModel {
        match self {
            CapNick::Star => CapNickModel::Star,
            CapNick::Nick(s) => CapNickModel::Nick(s@),
        }
    }
}

impl CapNick {
    /// A named target.
    pub fn nick(nick: &str) -> (r: Self)
        ensures
            r@ == CapNickModel::Nick(nick@),
    {
        CapNick::Nick(nick.to_owned())
    }
}

/// The mathematical shape of a capability subcommand.
pub enum SubCommandModel {
    LS(bool, Seq<CapabilityModel>),
    LIST(bool, Seq<CapabilityModel>),
    REQ(Seq<CapabilityModel>),
    ACK(Seq<CapabilityModel>),
    NAK(Seq<CapabilityModel>),
    NEW(Seq<CapabilityModel>),
    DEL(Seq<CapabilityModel>),
}

/// The capability list a subcommand carries.
pub open spec fn subcmd_caps(sc: SubCommandModel) -> Seq<CapabilityModel> {
    match sc {
        SubCommandModel::LS(_, caps) => caps,
        SubCommandModel::LIST(_, caps) => caps,
        SubCommandModel::REQ(caps) => caps,
        SubCommandModel::ACK(caps) => caps,
        SubCommandModel::NAK(caps) => caps,
        SubCommandModel::NEW(caps) => caps,
        SubCommandModel::DEL(caps) => caps,
    }
}

/// The same subcommand with its capability list replaced.
pub open spec fn subcmd_with_caps(sc: SubCommandModel, caps: Seq<CapabilityModel>) -> SubCommandModel {
    match sc {
        SubCommandModel::LS(m, _) => SubCommandModel::LS(m, caps),
        SubCommandModel::LIST(m, _) => SubCommandModel::LIST(m, caps),
        SubCommandModel::REQ(_) => SubCommandModel::REQ(caps),
        SubCommandModel::ACK(_) => SubCommandModel::ACK(caps),
        SubCommandModel::NAK(_) => SubCommandModel::NAK(caps),
        SubCommandModel::NEW(_) => SubCommandModel::NEW(caps),
        SubCommandModel::DEL(_) => SubCommandModel::DEL(caps),
    }
}

/// The subcommand's name on the wire.
pub open spec fn spec_subcmd_name(sc: SubCommandModel) -> Seq<char> {
    match sc {
        SubCommandModel::LS(_, _) => seq!['L', 'S'],
        SubCommandModel::LIST(_, _) => seq!['L', 'I', 'S', 'T'],
        SubCommandModel::REQ(_) => seq!['R', 'E', 'Q'],
        SubCommandModel::ACK(_) => seq!['A', 'C', 'K'],
        SubCommandModel::NAK(_) => seq!['N', 'A', 'K'],
        SubCommandModel::NEW(_) => seq!['N', 'E', 'W'],
        SubCommandModel::DEL(_) => seq!['D', 'E', 'L'],
    }
}

/// The texts of the capabilities of a list.
pub open spec fn spec_caps_texts(caps: Seq<CapabilityModel>) -> Seq<Seq<char>> {
    caps.map_values(|c: CapabilityModel| spec_cap_text(c))
}

/// The multiline continuation flag of a subcommand, where it has one.
pub open spec fn subcmd_multiline(sc: SubCommandModel) -> bool {
    match sc {
        SubCommandModel::LS(m, _) => m,
        SubCommandModel::LIST(m, _) => m,
        _ => false,
    }
}

/// The wire text of a subcommand: its name, a space, `* ` when the multiline
/// flag is set, then a colon and the space-joined capability list.
pub open spec fn spec_subcmd_text(sc: SubCommandModel) -> Seq<char> {
    spec_subcmd_name(sc) + seq![' '] + (if subcmd_multiline(sc) {
        seq!['*', ' ']
    } else {
        Seq::<char>::empty()
    }) + seq![':'] + spec_join(spec_caps_texts(subcmd_caps(sc)), seq![' '])
}

#[derive(Debug, Clone, PartialEq)]
pub enum SubCommand {
    LS(bool, Vec<Capability>),
    LIST(bool, Vec<Capability>),
    REQ(Vec<Capability>),
    ACK(Vec<Capability>),
    NAK(Vec<Capability>),
    NEW(Vec<Capability>),
    DEL(Vec<Capability>),
}

impl View for SubCommand {
    type V = SubCommandModel;

    open spec fn view(&self) -> SubCommandModel {
        match self {
            SubCommand::LS(m, caps) => SubCommandModel::LS(*m, caps.deep_view()),
            SubCommand::LIST(m, caps) => SubCommandModel::LIST(*m, caps.deep_view()),
            SubCommand::REQ(caps) => SubCommandModel::REQ(caps.deep_view()),
            SubCommand::ACK(caps) => SubCommandModel::ACK(caps.deep_view()),
            SubCommand::NAK(caps) => SubCommandModel::NAK(caps.deep_view()),
            SubCommand::NEW(caps) => SubCommandModel::NEW(caps.deep_view()),
            SubCommand::DEL(caps) => SubCommandModel::DEL(caps.deep_view()),
        }
    }
}

/// The texts of a capability list, in order.
fn caps_texts(caps: &Vec<Capability>) -> (r: Vec<String>)
    ensures
        r.deep_view() == spec_caps_texts(caps.deep_view()),
{
    let mut r: Vec<String> = Vec::new();
    let mut i: usize = 0;
    while i < caps.len()
        invariant
            i <= caps.len(),
            r.deep_view() =~= spec_caps_texts(caps.deep_view().take(i as int)),
        decreases caps.len() - i,
    {
        r.push(caps[i].text());
        proof {
            assert(caps.deep_view().take(i as int + 1) =~= caps.deep_view().take(i as int).push(
                caps.deep_view()[i as int],
            ));
            assert(spec_caps_texts(caps.deep_view().take(i as int + 1)) =~= spec_caps_texts(
                caps.deep_view().take(i as int),
            ).push(spec_cap_text(caps.deep_view()[i as int])));
        }
        i += 1;
    }
    proof {
        assert(caps.deep_view().take(caps.len() as int) =~= caps.deep_view());
    }
    r
}

impl SubCommand {
    /// The subcommand's name on the wire.
    pub fn command_name(&self) -> (r: &'static str)
        ensures
            r@ == spec_subcmd_name(self@),
    {
        match self {
            SubCommand::LS(_, _) => {
                proof {
                    reveal_strlit("LS");
                    assert("LS"@ =~= seq!['L', 'S']);
                }
                "LS"
            },
            SubCommand::LIST(_, _) => {
                proof {
                    reveal_strlit("LIST");
                    assert("LIST"@ =~= seq!['L', 'I', 'S', 'T']);
                }
                "LIST"
            },
            SubCommand::REQ(_) => {
                proof {
                    reveal_strlit("REQ");
                    assert("REQ"@ =~= seq!['R', 'E', 'Q']);
                }
                "REQ"
            },
            SubCommand::ACK(_) => {
                proof {
                    reveal_strlit("ACK");
                    assert("ACK"@ =~= seq!['A', 'C', 'K']);
                }
                "ACK"
            },
            SubCommand::NAK(_) => {
                proof {
                    reveal_strlit("NAK");
                    assert("NAK"@ =~= seq!['N', 'A', 'K']);
                }
                "NAK"
            },
            SubCommand::NEW(_) => {
                proof {
                    reveal_strlit("NEW");
                    assert("NEW"@ =~= seq!['N', 'E', 'W']);
                }
                "NEW"
            },
            SubCommand::DEL(_) => {
                proof {
                    reveal_strlit("DEL");
                    assert("DEL"@ =~= seq!['D', 'E', 'L']);
                }
                "DEL"
            },
        }
    }

    /// The capability list the subcommand carries.
    pub fn capabilities(&self) -> (r: &Vec<Capability>)
        ensures
            r.deep_view() == subcmd_caps(self@),
    {
        match self {
            SubCommand::LS(_, caps) => caps,
            SubCommand::LIST(_, caps) => caps,
            SubCommand::REQ(caps) => caps,
            SubCommand::ACK(caps) => caps,
            SubCommand::NAK(caps) => caps,
            SubCommand::NEW(caps) => caps,
            SubCommand::DEL(caps) => caps,
        }
    }

    /// The wire text of the subcommand.
    pub fn text(&self) -> (r: String)
        ensures
            r@ == spec_subcmd_text(self@),
    {
        let mut r = self.command_name().to_owned();
        push_char(&mut r, ' ');
        let multi = match self {
            SubCommand::LS(m, _) => *m,
            SubCommand::LIST(m, _) => *m,
            _ => false,
        };
        if multi {
            r.append("* ");
            proof {
                reveal_strlit("* ");
                assert("* "@ =~= seq!['*', ' ']);
            }
        }
        push_char(&mut r, ':');
        let texts = caps_texts(self.capabilities());
        let joined = join_strs(&texts, " ");
        r.append(joined.as_str());
        proof {
            reveal_strlit(" ");
            assert(" "@ =~= seq![' ']);
            assert(r@ =~= spec_subcmd_text(self@));
        }
        r
    }
}

/// The mathematical shape of a capability message.
pub struct MsgCapModel {
    pub nick: CapNickModel,
    pub sub_command: SubCommandModel,
}

/// The wire text of a capability message: `CAP <nick> <subcommand>`.
pub open spec fn spec_msg_cap_text(m: MsgCapModel) -> Seq<char> {
    seq!['C', 'A', 'P', ' '] + spec_nick_text(m.nick) + seq![' '] + spec_subcmd_text(m.sub_command)
}

#[derive(Debug, Clone, PartialEq)]
pub struct MsgCap {
    pub nick: CapNick,
    pub sub_command: SubCommand,
}

impl View for MsgCap {
    type V = MsgCapModel;

    open spec fn view(&self) -> MsgCapModel {
        MsgCapModel { nick: self.nick@, sub_command: self.sub_command@ }
    }
}

impl MsgCap {
    /// A builder with no target and no subcommand chosen yet.
    pub fn builder() -> (r: Builder)
        ensures
            r@.nick is None,
            r@.sub_command is None,
    {
        Builder { nick: None, sub_command: None }
    }

    /// The wire text of the message.
    pub fn text(&self) -> (r: String)
        ensures
            r@ == spec_msg_cap_text(self@),
    {
        let mut r = String::new();
        r.append("CAP ");
        let nick_part = match &self.nick {
            CapNick::Star => {
                proof {
                    reveal_strlit("*");
                    assert("*"@ =~= seq!['*']);
                }
                String::from_str("*")
            },
            CapNick::Nick(n) => n.clone(),
        };
        r.append(nick_part.as_str());
        push_char(&mut r, ' ');
        let sub = self.sub_command.text();
        r.append(sub.as_str());
        proof {
            reveal_strlit("CAP ");
            assert("CAP "@ =~= seq!['C', 'A', 'P', ' ']);
            assert(r@ =~= spec_msg_cap_text(self@));
        }
        r
    }
}

fn push_cap(caps: Vec<Capability>, c: Capability) -> (r: Vec<Capability>)
    ensures
        r.deep_view() == caps.deep_view().push(c@),
{
    let ghost dv0 = caps.deep_view();
    let mut caps = caps;
    caps.push(c);
    proof {
        assert(caps.deep_view() =~= dv0.push(caps[caps.len() - 1]@));
    }
    caps
}

/// The model of a partially built capability message.
pub struct BuilderModel {
    pub nick: Option<CapNickModel>,
    pub sub_command: Option<SubCommandModel>,
}

pub struct Builder {
    nick: Option<CapNick>,
    sub_command: Option<SubCommand>,
}

impl View for Builder {
    type V = BuilderModel;

    closed spec fn view(&self) -> BuilderModel {
        BuilderModel {
            nick: match &self.nick {
                Some(n) => Some(n@),
                None => None,
            },
            sub_command: match &self.sub_command {
                Some(sc) => Some(sc@),
                None => None,
            },
        }
    }
}

impl Builder {
    /// Targets the message at `*`, the placeholder before a nick is known.
    pub fn star(self) -> (r: Self)
        ensures
            r@.nick == Some(CapNickModel::Star),
            r@.sub_command == self@.sub_command,
    {
        Builder { nick: Some(CapNick::Star), ..self }
    }

    /// Targets the message at a nick.
    pub fn nick(self, nick: &str) -> (r: Self)
        ensures
            r@.nick == Some(CapNickModel::Nick(nick@)),
            r@.sub_command == self@.sub_command,
    {
        Builder { nick: Some(CapNick::Nick(nick.to_owned())), ..self }
    }

    /// Chooses the `LS` subcommand with an empty capability list.
    pub fn ls(self, multiline: bool) -> (r: Self)
        ensures
            r@.nick == self@.nick,
            r@.sub_command == Some(SubCommandModel::LS(multiline, Seq::<CapabilityModel>::empty())),
    {
        let caps: Vec<Capability> = Vec::new();
        proof {
            assert(Seq::<CapabilityModel>::empty() =~= caps.deep_view());
        }
        Builder { sub_command: Some(SubCommand::LS(multiline, caps)), ..self }
    }

    /// Chooses the `REQ` subcommand with an empty capability list.
    pub fn req(self) -> (r: Self)
        ensures
            r@.nick == self@.nick,
            r@.sub_command == Some(SubCommandModel::REQ(Seq::<CapabilityModel>::empty())),
    {
        let caps: Vec<Capability> = Vec::new();
        proof {
            assert(Seq::<CapabilityModel>::empty() =~= caps.deep_view());
        }
        Builder { sub_command: Some(SubCommand::REQ(caps)), ..self }
    }

    /// Chooses the `ACK` subcommand with an empty capability list.
    pub fn ack(self) -> (r: Self)
        ensures
            r@.nick == self@.nick,
            r@.sub_command == Some(SubCommandModel::ACK(Seq::<CapabilityModel>::empty())),
    {
        let caps: Vec<Capability> = Vec::new();
        proof {
            assert(Seq::<CapabilityModel>::empty() =~= caps.deep_view());
        }
        Builder { sub_command: Some(SubCommand::ACK(caps)), ..self }
    }

    /// Chooses the `NAK` subcommand with an empty capability list.
    pub fn nak(self) -> (r: Self)
        ensures
            r@.nick == self@.nick,
            r@.sub_command == Some(SubCommandModel::NAK(Seq::<CapabilityModel>::empty())),
    {
        let caps: Vec<Capability> = Vec::new();
        proof {
            assert(Seq::<CapabilityModel>::empty() =~= caps.deep_view());
        }
        Builder { sub_command: Some(SubCommand::NAK(caps)), ..self }
    }

    /// Adds a single bare capability to the chosen subcommand.
    pub fn single(self, single_capability: &str) -> (r: Self)
        requires
            self@.sub_command is Some,
        ensures
            r@.nick == self@.nick,
            r@.sub_command == Some(
                subcmd_with_caps(
                    self@.sub_command.unwrap(),
                    subcmd_caps(self@.sub_command.unwrap()).push(
                        CapabilityModel::Single(single_capability@),
                    ),
                ),
            ),
    {
        let cap = Capability::new(single_capability);
        self.capability(cap)
    }

    /// Adds a capability to the chosen subcommand's list.
    pub fn capability(self, capability: Capability) -> (r: Self)
        requires
            self@.sub_command is Some,
        ensures
            r@.nick == self@.nick,
            r@.sub_command == Some(
                subcmd_with_caps(
                    self@.sub_command.unwrap(),
                    subcmd_caps(self@.sub_command.unwrap()).push(capability@),
                ),
            ),
    {
        let Builder { nick, sub_command } = self;
        let sc = match sub_command {
            Some(sc) => sc,
            None => unreached(),
        };
        let sc2 = match sc {
            SubCommand::LS(m, caps) => SubCommand::LS(m, push_cap(caps, capability)),
            SubCommand::LIST(m, caps) => SubCommand::LIST(m, push_cap(caps, capability)),
            SubCommand::REQ(caps) => SubCommand::REQ(push_cap(caps, capability)),
            SubCommand::ACK(caps) => SubCommand::ACK(push_cap(caps, capability)),
            SubCommand::NAK(caps) => SubCommand::NAK(push_cap(caps, capability)),
            SubCommand::NEW(caps) => SubCommand::NEW(push_cap(caps, capability)),
            SubCommand::DEL(caps) => SubCommand::DEL(push_cap(caps, capability)),
        };
        Builder { nick, sub_command: Some(sc2) }
    }

    /// Builds the message; the target and the subcommand must both have been
    /// chosen.
    pub fn build(self) -> (r: MsgCap)
        requires
            self@.nick is Some,
            self@.sub_command is Some,
        ensures
            r@.nick == self@.nick.unwrap(),
            r@.sub_command == self@.sub_command.unwrap(),
    {
        let Builder { nick, sub_command } = self;
        let nick = match nick {
            Some(n) => n,
            None => unreached(),
        };
        let sub_command = match sub_command {
            Some(sc) => sc,
            None => unreached(),
        };
        MsgCap { nick, sub_command }
    }
}

} // verus!
