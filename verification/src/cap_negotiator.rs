//! The capability negotiator: the state machine of the pre-registration
//! handshake. It owns the set of desired capabilities and tracks each one as
//! pending, acknowledged or rejected; incoming capability messages move
//! capabilities between the three sets and may produce one outgoing request.
//!
//! Negotiation tracks capabilities by name alone: two capabilities are the
//! same slot when their names match, whatever their value shapes.

use vstd::prelude::*;

use crate::capability::{cap_name, Capability, CapabilityModel};
use crate::generic_message::{CommandModel, GenericMessageModel};
use crate::message::{Message, MessageBuilderError, MessageModel, MessageTypeModel, TagModel};
use crate::msg_cap::{spec_subcmd_name, MsgCap, SubCommand, SubCommandModel};
use crate::text::{spec_join, str_compare};

verus! {

// ---------------------------------------------------------------------------
// Names and name sets.
// ---------------------------------------------------------------------------

/// Whether some capability of `caps` bears the name `name`.
pub open spec fn has_name(caps: Seq<CapabilityModel>, name: Seq<char>) -> bool {
    exists|k: int| 0 <= k < caps.len() && cap_name(#[trigger] caps[k]) == name
}

/// No two capabilities of `caps` share a name.
pub open spec fn unique_names(caps: Seq<CapabilityModel>) -> bool {
    forall|i: int, j: int|
        0 <= i < j < caps.len() ==> cap_name(#[trigger] caps[i]) != cap_name(#[trigger] caps[j])
}

/// No capability of `a` shares its name with one of `b`.
pub open spec fn names_disjoint(a: Seq<CapabilityModel>, b: Seq<CapabilityModel>) -> bool {
    forall|i: int| 0 <= i < a.len() ==> !has_name(b, cap_name(#[trigger] a[i]))
}

/// Every capability name sits in at most one of the three sets.
pub open spec fn sets_disjoint(n: CapNegotiatorModel) -> bool {
    &&& names_disjoint(n.requested, n.acknowledged)
    &&& names_disjoint(n.requested, n.not_acknowledged)
    &&& names_disjoint(n.acknowledged, n.not_acknowledged)
}

/// The invariant of the negotiator: within each set names are unique, and
/// every capability name sits in at most one of the three sets.
pub open spec fn negotiator_wf(n: CapNegotiatorModel) -> bool {
    &&& unique_names(n.requested)
    &&& unique_names(n.acknowledged)
    &&& unique_names(n.not_acknowledged)
    &&& names_disjoint(n.requested, n.acknowledged)
    &&& names_disjoint(n.requested, n.not_acknowledged)
    &&& names_disjoint(n.acknowledged, n.not_acknowledged)
}

// ---------------------------------------------------------------------------
// What an incoming message does to the sets.
// ---------------------------------------------------------------------------

/// The requested capabilities whose names the incoming list does not carry,
/// in their original order.
pub open spec fn spec_remaining(reqs: Seq<CapabilityModel>, caps: Seq<CapabilityModel>) -> Seq<
    CapabilityModel,
>
    decreases reqs.len(),
{
    if reqs.len() == 0 {
        Seq::empty()
    } else {
        let rest = spec_remaining(reqs.drop_first(), caps);
        if has_name(caps, cap_name(reqs[0])) {
            rest
        } else {
            seq![reqs[0]] + rest
        }
    }
}

/// The requested capabilities the incoming list names, in their original
/// order and original value shape.
pub open spec fn spec_moved(reqs: Seq<CapabilityModel>, caps: Seq<CapabilityModel>) -> Seq<
    CapabilityModel,
>
    decreases reqs.len(),
{
    if reqs.len() == 0 {
        Seq::empty()
    } else {
        let rest = spec_moved(reqs.drop_first(), caps);
        if has_name(caps, cap_name(reqs[0])) {
            seq![reqs[0]] + rest
        } else {
            rest
        }
    }
}

/// Every capability of the two split halves keeps a name from `reqs`; the
/// halves keep names unique and split by membership in `caps`.
pub proof fn lemma_split_names(reqs: Seq<CapabilityModel>, caps: Seq<CapabilityModel>)
    ensures
        forall|n: Seq<char>| has_name(spec_remaining(reqs, caps), n) ==> has_name(reqs, n),
        forall|n: Seq<char>| has_name(spec_moved(reqs, caps), n) ==> has_name(reqs, n),
        forall|k: int|
            0 <= k < spec_remaining(reqs, caps).len() ==> !has_name(
                caps,
                cap_name(#[trigger] spec_remaining(reqs, caps)[k]),
            ),
        forall|k: int|
            0 <= k < spec_moved(reqs, caps).len() ==> has_name(
                caps,
                cap_name(#[trigger] spec_moved(reqs, caps)[k]),
            ),
        unique_names(reqs) ==> unique_names(spec_remaining(reqs, caps)),
        unique_names(reqs) ==> unique_names(spec_moved(reqs, caps)),
        unique_names(reqs) ==> names_disjoint(
            spec_remaining(reqs, caps),
            spec_moved(reqs, caps),
        ),
    decreases reqs.len(),
{
    if reqs.len() > 0 {
        let rest = reqs.drop_first();
        lemma_split_names(rest, caps);
        assert forall|n: Seq<char>| has_name(rest, n) implies has_name(reqs, n) by {
            let k = choose|k: int| 0 <= k < rest.len() && cap_name(#[trigger] rest[k]) == n;
            assert(reqs[k + 1] == rest[k]);
        }
        if unique_names(reqs) {
            assert forall|i: int, j: int| 0 <= i < j < rest.len() implies cap_name(
                #[trigger] rest[i],
            ) != cap_name(#[trigger] rest[j]) by {
                assert(rest[i] == reqs[i + 1] && rest[j] == reqs[j + 1]);
            }
            assert(!has_name(rest, cap_name(reqs[0]))) by {
                if has_name(rest, cap_name(reqs[0])) {
                    let k = choose|k: int|
                        0 <= k < rest.len() && cap_name(#[trigger] rest[k]) == cap_name(reqs[0]);
                    assert(rest[k] == reqs[k + 1]);
                }
            }
        }
    }
}

// ---------------------------------------------------------------------------
// The names an `LS` advertisement has in common with the requested set.
// ---------------------------------------------------------------------------

/// The names of the advertised capabilities that are still requested, in
/// advertisement order.
pub open spec fn spec_matched_names(
    advertised: Seq<CapabilityModel>,
    requested: Seq<CapabilityModel>,
) -> Seq<Seq<char>>
    decreases advertised.len(),
{
    if advertised.len() == 0 {
        Seq::empty()
    } else {
        let rest = spec_matched_names(advertised.drop_first(), requested);
        if has_name(requested, cap_name(advertised[0])) {
            seq![cap_name(advertised[0])] + rest
        } else {
            rest
        }
    }
}

// ---------------------------------------------------------------------------
// The outgoing messages.
// ---------------------------------------------------------------------------

/// A bare `CAP` line with the given parameters: no tags, no source.
pub open spec fn spec_cap_line(params: Seq<Seq<char>>) -> MessageModel {
    MessageModel {
        tags: Seq::<TagModel>::empty(),
        source: None,
        msg_type: MessageTypeModel::Generic(
            GenericMessageModel { command: CommandModel::Cmd(seq!['C', 'A', 'P']), parameters: params },
        ),
    }
}

/// `CAP LS [version]`.
pub open spec fn spec_ls_message(version: Option<Seq<char>>) -> MessageModel {
    match version {
        Some(v) => spec_cap_line(seq![seq!['L', 'S'], v]),
        None => spec_cap_line(seq![seq!['L', 'S']]),
    }
}

/// `CAP END`.
pub open spec fn spec_end_message() -> MessageModel {
    spec_cap_line(seq![seq!['E', 'N', 'D']])
}

/// `CAP REQ` listing the given names, space-joined.
pub open spec fn spec_req_message(names: Seq<Seq<char>>) -> MessageModel {
    spec_cap_line(seq![seq!['R', 'E', 'Q'], spec_join(names, seq![' '])])
}

/// What handling an `LS` advertisement sends back: nothing when no advertised
/// capability is still requested, else exactly one `CAP REQ`.
pub open spec fn spec_ls_response(
    advertised: Seq<CapabilityModel>,
    requested: Seq<CapabilityModel>,
) -> Seq<MessageModel> {
    let names = spec_matched_names(advertised, requested);
    if names.len() == 0 {
        Seq::empty()
    } else {
        seq![spec_req_message(names)]
    }
}

// ---------------------------------------------------------------------------
// The negotiator.
// ---------------------------------------------------------------------------

/// The model of the negotiator's error.
pub enum ErrorModel {
    UnexpectedCommand(CommandModel),
    UnexpectedSubcommand(Seq<char>),
    MessageBuilderError(MessageBuilderError),
}

/// A recoverable negotiation error; the negotiator's state is untouched by a
/// failed call.
#[derive(Debug)]
pub enum Error {
    UnexpectedCommand(crate::generic_message::Command),
    UnexpectedSubcommand(String),
    MessageBuilderError(MessageBuilderError),
}

impl View for Error {
    type V = ErrorModel;

    open spec fn view(&self) -> ErrorModel {
        match self {
            Error::UnexpectedCommand(c) => ErrorModel::UnexpectedCommand(c@),
            Error::UnexpectedSubcommand(s) => ErrorModel::UnexpectedSubcommand(s@),
            Error::MessageBuilderError(e) => ErrorModel::MessageBuilderError(*e),
        }
    }
}

/// The model of the negotiator: its three capability sets.
pub struct CapNegotiatorModel {
    pub requested: Seq<CapabilityModel>,
    pub acknowledged: Seq<CapabilityModel>,
    pub not_acknowledged: Seq<CapabilityModel>,
}

/// The negotiator: requested capabilities still pending, and those the
/// server has accepted or rejected.
#[derive(Debug, Clone, PartialEq)]
pub struct CapNegotiator {
    pub requested: Vec<Capability>,
    pub acknowledged: Vec<Capability>,
    pub not_acknowledged: Vec<Capability>,
}

impl View for CapNegotiator {
    type V = CapNegotiatorModel;

    open spec fn view(&self) -> CapNegotiatorModel {
        CapNegotiatorModel {
            requested: self.requested.deep_view(),
            acknowledged: self.acknowledged.deep_view(),
            not_acknowledged: self.not_acknowledged.deep_view(),
        }
    }
}

/// Whether some capability of `caps` bears the name `name`.
fn contains_name(caps: &Vec<Capability>, name: &str) -> (b: bool)
    ensures
        b == has_name(caps.deep_view(), name@),
{
    let mut i: usize = 0;
    while i < caps.len()
        invariant
            i <= caps.len(),
            forall|k: int| 0 <= k < i ==> cap_name(#[trigger] caps.deep_view()[k]) != name@,
        decreases caps.len() - i,
    {
        if str_compare(caps[i].name().as_str(), name) == 0 {
            proof {
                assert(cap_name(caps.deep_view()[i as int]) == name@);
            }
            return true;
        }
        proof {
            assert(cap_name(caps.deep_view()[i as int]) != name@);
        }
        i += 1;
    }
    proof {
        if has_name(caps.deep_view(), name@) {
            let k = choose|k: int|
                0 <= k < caps.deep_view().len() && cap_name(#[trigger] caps.deep_view()[k])
                    == name@;
            assert(cap_name(caps.deep_view()[k]) != name@);
        }
    }
    false
}

/// Splits `reqs` into those whose names `caps` does not carry and those it
/// does, each half in its original order.
fn split_by_names(reqs: Vec<Capability>, caps: &Vec<Capability>) -> (r: (
    Vec<Capability>,
    Vec<Capability>,
))
    ensures
        r.0.deep_view() == spec_remaining(reqs.deep_view(), caps.deep_view()),
        r.1.deep_view() == spec_moved(reqs.deep_view(), caps.deep_view()),
{
    let ghost all = reqs.deep_view();
    let mut rest = reqs;
    let mut remaining: Vec<Capability> = Vec::new();
    let mut moved: Vec<Capability> = Vec::new();
    proof {
        assert(remaining.deep_view() =~= Seq::<CapabilityModel>::empty());
        assert(moved.deep_view() =~= Seq::<CapabilityModel>::empty());
        assert(rest.deep_view() =~= all);
        assert(spec_remaining(all, caps.deep_view()) =~= remaining.deep_view() + spec_remaining(
            rest.deep_view(),
            caps.deep_view(),
        ));
        assert(spec_moved(all, caps.deep_view()) =~= moved.deep_view() + spec_moved(
            rest.deep_view(),
            caps.deep_view(),
        ));
    }
    loop
        invariant
            spec_remaining(all, caps.deep_view()) == remaining.deep_view() + spec_remaining(
                rest.deep_view(),
                caps.deep_view(),
            ),
            spec_moved(all, caps.deep_view()) == moved.deep_view() + spec_moved(
                rest.deep_view(),
                caps.deep_view(),
            ),
        ensures
            rest.len() == 0,
            spec_remaining(all, caps.deep_view()) == remaining.deep_view() + spec_remaining(
                rest.deep_view(),
                caps.deep_view(),
            ),
            spec_moved(all, caps.deep_view()) == moved.deep_view() + spec_moved(
                rest.deep_view(),
                caps.deep_view(),
            ),
        decreases rest.len(),
    {
        if rest.len() == 0 {
            break ;
        }
        let ghost rest0 = rest.deep_view();
        let ghost rem0 = remaining.deep_view();
        let ghost mov0 = moved.deep_view();
        let c = rest.remove(0);
        proof {
            assert(rest.deep_view() =~= rest0.drop_first());
            assert(c@ == rest0[0]);
        }
        let matched = contains_name(caps, c.name().as_str());
        if matched {
            moved.push(c);
            proof {
                assert(moved.deep_view() =~= mov0.push(rest0[0]));
                assert(seq![rest0[0]] + spec_moved(rest0.drop_first(), caps.deep_view())
                    =~= spec_moved(rest0, caps.deep_view()));
                assert(mov0 + spec_moved(rest0, caps.deep_view()) =~= moved.deep_view()
                    + spec_moved(rest.deep_view(), caps.deep_view()));
            }
        } else {
            remaining.push(c);
            proof {
                assert(remaining.deep_view() =~= rem0.push(rest0[0]));
                assert(seq![rest0[0]] + spec_remaining(rest0.drop_first(), caps.deep_view())
                    =~= spec_remaining(rest0, caps.deep_view()));
                assert(rem0 + spec_remaining(rest0, caps.deep_view()) =~= remaining.deep_view()
                    + spec_remaining(rest.deep_view(), caps.deep_view()));
            }
        }
    }
    proof {
        assert(spec_remaining(rest.deep_view(), caps.deep_view()) =~= Seq::<
            CapabilityModel,
        >::empty());
        assert(spec_moved(rest.deep_view(), caps.deep_view()) =~= Seq::<CapabilityModel>::empty());
        assert(remaining.deep_view() + Seq::<CapabilityModel>::empty() =~= remaining.deep_view());
        assert(moved.deep_view() + Seq::<CapabilityModel>::empty() =~= moved.deep_view());
    }
    (remaining, moved)
}

impl CapNegotiator {
    /// A negotiator that desires exactly the given capabilities; nothing is
    /// acknowledged or rejected yet.
    pub fn request(capabilities: Vec<Capability>) -> (r: Self)
        ensures
            r@.requested == capabilities.deep_view(),
            r@.acknowledged == Seq::<CapabilityModel>::empty(),
            r@.not_acknowledged == Seq::<CapabilityModel>::empty(),
            unique_names(capabilities.deep_view()) ==> negotiator_wf(r@),
            sets_disjoint(r@),
    {
        let acknowledged: Vec<Capability> = Vec::new();
        let not_acknowledged: Vec<Capability> = Vec::new();
        proof {
            assert(acknowledged.deep_view() =~= Seq::<CapabilityModel>::empty());
            assert(not_acknowledged.deep_view() =~= Seq::<CapabilityModel>::empty());
        }
        CapNegotiator { requested: capabilities, acknowledged, not_acknowledged }
    }

    /// The probe to send first: `CAP LS [version]`. Pure; no state changes.
    pub fn ls(&self, version: Option<&str>) -> (r: Message)
        ensures
            r@ == spec_ls_message(
                match version {
                    Some(v) => Some(v@),
                    None => None,
                },
            ),
    {
        proof {
            reveal_strlit("CAP");
            reveal_strlit("LS");
            assert("CAP"@ =~= seq!['C', 'A', 'P']);
            assert("LS"@ =~= seq!['L', 'S']);
        }
        let mut builder = Message::cmd("CAP").param("LS");
        match version {
            Some(v) => {
                builder = builder.param(v);
                let m = builder.build();
                proof {
                    assert(m@.msg_type->Generic_0.parameters =~= seq!["LS"@, v@]);
                    assert(m@ =~= spec_ls_message(Some(v@)));
                }
                m
            },
            None => {
                let m = builder.build();
                proof {
                    assert(m@.msg_type->Generic_0.parameters =~= seq!["LS"@]);
                    assert(m@ =~= spec_ls_message(None));
                }
                m
            },
        }
    }

    /// The closing message: `CAP END`. Pure; when to send it is the caller's
    /// decision.
    pub fn end(&self) -> (r: Message)
        ensures
            r@ == spec_end_message(),
    {
        proof {
            reveal_strlit("CAP");
            reveal_strlit("END");
            assert("CAP"@ =~= seq!['C', 'A', 'P']);
            assert("END"@ =~= seq!['E', 'N', 'D']);
        }
        let m = Message::cmd("CAP").param("END").build();
        proof {
            assert(m@.msg_type->Generic_0.parameters =~= seq!["END"@]);
            assert(m@ =~= spec_end_message());
        }
        m
    }

    /// Handles one incoming capability message.
    ///
    /// `LS` answers with one `CAP REQ` for the advertised capabilities that
    /// are still requested (none when nothing matches) and moves nothing;
    /// `ACK` and `NAK` move the named capabilities, in their requested value
    /// shape, out of the requested set; any other subcommand is reported as
    /// unexpected. A failed call leaves the negotiator exactly as it was.
    pub fn handle(&mut self, message: MsgCap) -> (r: Result<Vec<Message>, Error>)
        ensures
            negotiator_wf(old(self)@) ==> negotiator_wf(final(self)@),
            sets_disjoint(old(self)@) ==> sets_disjoint(final(self)@),
            match message@.sub_command {
                SubCommandModel::LS(_, caps) => {
                    &&& final(self)@ == old(self)@
                    &&& (r matches Ok(msgs) && msgs.deep_view() == spec_ls_response(
                        caps,
                        old(self)@.requested,
                    ))
                },
                SubCommandModel::ACK(caps) => {
                    &&& (r matches Ok(msgs) && msgs.deep_view() == Seq::<MessageModel>::empty())
                    &&& final(self)@.requested == spec_remaining(old(self)@.requested, caps)
                    &&& final(self)@.acknowledged == old(self)@.acknowledged + spec_moved(
                        old(self)@.requested,
                        caps,
                    )
                    &&& final(self)@.not_acknowledged == old(self)@.not_acknowledged
                },
                SubCommandModel::NAK(caps) => {
                    &&& (r matches Ok(msgs) && msgs.deep_view() == Seq::<MessageModel>::empty())
                    &&& final(self)@.requested == spec_remaining(old(self)@.requested, caps)
                    &&& final(self)@.not_acknowledged == old(self)@.not_acknowledged + spec_moved(
                        old(self)@.requested,
                        caps,
                    )
                    &&& final(self)@.acknowledged == old(self)@.acknowledged
                },
                _ => {
                    &&& final(self)@ == old(self)@
                    &&& (r matches Err(e) && e@ == ErrorModel::UnexpectedSubcommand(
                        spec_subcmd_name(message@.sub_command),
                    ))
                },
            },
    {
        match &message.sub_command {
            SubCommand::LS(_, caps) => self.match_listed_capabilities(caps),
            SubCommand::ACK(caps) => {
                proof {
                    lemma_split_names(self.requested.deep_view(), caps.deep_view());
                }
                let mut reqs: Vec<Capability> = Vec::new();
                core::mem::swap(&mut reqs, &mut self.requested);
                let (remaining, mut moved) = split_by_names(reqs, caps);
                self.requested = remaining;
                let ghost ack0 = self.acknowledged.deep_view();
                self.acknowledged.append(&mut moved);
                proof {
                    assert(self.acknowledged.deep_view() =~= ack0 + spec_moved(
                        old(self)@.requested,
                        caps.deep_view(),
                    ));
                    if negotiator_wf(old(self)@) {
                        lemma_wf_after_move(
                            old(self)@.requested,
                            old(self)@.acknowledged,
                            old(self)@.not_acknowledged,
                            caps.deep_view(),
                        );
                    }
                    if sets_disjoint(old(self)@) {
                        lemma_disjoint_after_move(
                            old(self)@.requested,
                            old(self)@.acknowledged,
                            old(self)@.not_acknowledged,
                            caps.deep_view(),
                        );
                    }
                }
                Ok(Vec::new())
            },
            SubCommand::NAK(caps) => {
                proof {
                    lemma_split_names(self.requested.deep_view(), caps.deep_view());
                }
                let mut reqs: Vec<Capability> = Vec::new();
                core::mem::swap(&mut reqs, &mut self.requested);
                let (remaining, mut moved) = split_by_names(reqs, caps);
                self.requested = remaining;
                let ghost nak0 = self.not_acknowledged.deep_view();
                self.not_acknowledged.append(&mut moved);
                proof {
                    assert(self.not_acknowledged.deep_view() =~= nak0 + spec_moved(
                        old(self)@.requested,
                        caps.deep_view(),
                    ));
                    if negotiator_wf(old(self)@) {
                        lemma_wf_after_move(
                            old(self)@.requested,
                            old(self)@.not_acknowledged,
                            old(self)@.acknowledged,
                            caps.deep_view(),
                        );
                    }
                    if sets_disjoint(old(self)@) {
                        lemma_disjoint_after_move(
                            old(self)@.requested,
                            old(self)@.not_acknowledged,
                            old(self)@.acknowledged,
                            caps.deep_view(),
                        );
                    }
                }
                Ok(Vec::new())
            },
            _ => {
                let name = message.sub_command.command_name().to_owned();
                Err(Error::UnexpectedSubcommand(name))
            },
        }
    }

    /// Computes the `CAP REQ` for an advertisement: the names of the
    /// advertised capabilities still requested, in advertisement order; no
    /// message at all when none match.
    fn match_listed_capabilities(&self, capabilities: &Vec<Capability>) -> (r: Result<
        Vec<Message>,
        Error,
    >)
        ensures
            r matches Ok(msgs) && msgs.deep_view() == spec_ls_response(
                capabilities.deep_view(),
                self@.requested,
            ),
    {
        let ghost advertised = capabilities.deep_view();
        let mut names: Vec<String> = Vec::new();
        let mut i: usize = 0;
        proof {
            assert(names.deep_view() =~= Seq::<Seq<char>>::empty());
            assert(advertised.skip(0) =~= advertised);
            assert(names.deep_view() + spec_matched_names(advertised, self@.requested)
                =~= spec_matched_names(advertised, self@.requested));
        }
        while i < capabilities.len()
            invariant
                i <= capabilities.len(),
                advertised == capabilities.deep_view(),
                spec_matched_names(advertised, self@.requested) == names.deep_view()
                    + spec_matched_names(advertised.skip(i as int), self@.requested),
            decreases capabilities.len() - i,
        {
            let ghost rest0 = advertised.skip(i as int);
            let ghost names0 = names.deep_view();
            let cap = &capabilities[i];
            proof {
                assert(rest0[0] == advertised[i as int]);
                assert(rest0.drop_first() =~= advertised.skip(i as int + 1));
            }
            if contains_name(&self.requested, cap.name().as_str()) {
                names.push(cap.name().clone());
                proof {
                    assert(names.deep_view() =~= names0.push(cap_name(advertised[i as int])));
                    assert(seq![cap_name(rest0[0])] + spec_matched_names(
                        rest0.drop_first(),
                        self@.requested,
                    ) =~= spec_matched_names(rest0, self@.requested));
                    assert(names0 + spec_matched_names(rest0, self@.requested)
                        =~= names.deep_view() + spec_matched_names(
                        advertised.skip(i as int + 1),
                        self@.requested,
                    ));
                }
            } else {
                proof {
                    assert(names0 + spec_matched_names(rest0, self@.requested) =~= names.deep_view()
                        + spec_matched_names(advertised.skip(i as int + 1), self@.requested));
                }
            }
            i += 1;
        }
        proof {
            assert(advertised.skip(advertised.len() as int) =~= Seq::<CapabilityModel>::empty());
            assert(names.deep_view() + Seq::<Seq<char>>::empty() =~= names.deep_view());
            assert(names.deep_view() == spec_matched_names(advertised, self@.requested));
        }
        if names.len() == 0 {
            let msgs: Vec<Message> = Vec::new();
            proof {
                assert(msgs.deep_view() =~= Seq::<MessageModel>::empty());
                assert(names.deep_view() =~= Seq::<Seq<char>>::empty());
            }
            Ok(msgs)
        } else {
            proof {
                reveal_strlit("CAP");
                reveal_strlit("REQ");
                reveal_strlit(" ");
                assert("CAP"@ =~= seq!['C', 'A', 'P']);
                assert("REQ"@ =~= seq!['R', 'E', 'Q']);
                assert(" "@ =~= seq![' ']);
            }
            let joined = crate::text::join_strs(&names, " ");
            let m = Message::cmd("CAP").param("REQ").param(joined.as_str()).build();
            let mut msgs: Vec<Message> = Vec::new();
            msgs.push(m);
            proof {
                assert(m@.msg_type->Generic_0.parameters =~= seq!["REQ"@, joined@]);
                assert(m@ =~= spec_req_message(names.deep_view()));
                assert(msgs.deep_view() =~= seq![m@]);
            }
            Ok(msgs)
        }
    }
}

/// Moving the capabilities named by `caps` from `reqs` to `dst` keeps the
/// three sets pairwise name-disjoint, whatever names repeat within one set.
proof fn lemma_disjoint_after_move(
    reqs: Seq<CapabilityModel>,
    dst: Seq<CapabilityModel>,
    other: Seq<CapabilityModel>,
    caps: Seq<CapabilityModel>,
)
    requires
        names_disjoint(reqs, dst),
        names_disjoint(reqs, other),
        names_disjoint(dst, other),
    ensures
        names_disjoint(spec_remaining(reqs, caps), dst + spec_moved(reqs, caps)),
        names_disjoint(spec_remaining(reqs, caps), other),
        names_disjoint(dst + spec_moved(reqs, caps), other),
{
    lemma_split_names(reqs, caps);
    let rem = spec_remaining(reqs, caps);
    let mov = spec_moved(reqs, caps);
    let dst2 = dst + mov;
    assert forall|i: int| 0 <= i < rem.len() implies !has_name(dst2, cap_name(#[trigger] rem[i]))
        by {
        if has_name(dst2, cap_name(rem[i])) {
            let k = choose|k: int|
                0 <= k < dst2.len() && cap_name(#[trigger] dst2[k]) == cap_name(rem[i]);
            assert(has_name(reqs, cap_name(rem[i])));
            let q = choose|q: int|
                0 <= q < reqs.len() && cap_name(#[trigger] reqs[q]) == cap_name(rem[i]);
            if k < dst.len() {
                assert(has_name(dst, cap_name(reqs[q]))) by {
                    assert(cap_name(dst[k]) == cap_name(reqs[q]));
                }
            } else {
                // a remaining name is outside `caps`, a moved one inside
                assert(dst2[k] == mov[k - dst.len()]);
                assert(has_name(caps, cap_name(mov[k - dst.len()])));
                assert(!has_name(caps, cap_name(rem[i])));
            }
        }
    }
    assert forall|i: int| 0 <= i < rem.len() implies !has_name(other, cap_name(#[trigger] rem[i]))
        by {
        assert(has_name(reqs, cap_name(rem[i])));
        let q = choose|q: int|
            0 <= q < reqs.len() && cap_name(#[trigger] reqs[q]) == cap_name(rem[i]);
        if has_name(other, cap_name(rem[i])) {
            assert(has_name(other, cap_name(reqs[q])));
        }
    }
    assert forall|i: int| 0 <= i < dst2.len() implies !has_name(other, cap_name(#[trigger] dst2[i]))
        by {
        if i >= dst.len() {
            assert(dst2[i] == mov[i - dst.len()]);
            assert(has_name(reqs, cap_name(mov[i - dst.len()])));
            let q = choose|q: int|
                0 <= q < reqs.len() && cap_name(#[trigger] reqs[q]) == cap_name(
                    mov[i - dst.len()],
                );
            if has_name(other, cap_name(dst2[i])) {
                assert(has_name(other, cap_name(reqs[q])));
            }
        } else {
            assert(dst2[i] == dst[i]);
        }
    }
}

/// Moving the capabilities named by `caps` from `reqs` to `dst` keeps the
/// three sets name-unique and pairwise name-disjoint.
proof fn lemma_wf_after_move(
    reqs: Seq<CapabilityModel>,
    dst: Seq<CapabilityModel>,
    other: Seq<CapabilityModel>,
    caps: Seq<CapabilityModel>,
)
    requires
        unique_names(reqs),
        unique_names(dst),
        unique_names(other),
        names_disjoint(reqs, dst),
        names_disjoint(reqs, other),
        names_disjoint(dst, other),
    ensures
        unique_names(spec_remaining(reqs, caps)),
        unique_names(dst + spec_moved(reqs, caps)),
        names_disjoint(spec_remaining(reqs, caps), dst + spec_moved(reqs, caps)),
        names_disjoint(spec_remaining(reqs, caps), other),
        names_disjoint(dst + spec_moved(reqs, caps), other),
{
    lemma_split_names(reqs, caps);
    lemma_disjoint_after_move(reqs, dst, other, caps);
    let mov = spec_moved(reqs, caps);
    let dst2 = dst + mov;
    assert forall|i: int, j: int| 0 <= i < j < dst2.len() implies cap_name(#[trigger] dst2[i])
        != cap_name(#[trigger] dst2[j]) by {
        if i < dst.len() && j >= dst.len() {
            assert(dst2[i] == dst[i] && dst2[j] == mov[j - dst.len()]);
            assert(has_name(reqs, cap_name(mov[j - dst.len()]))) by {
                assert(has_name(mov, cap_name(mov[j - dst.len()])));
            }
            if cap_name(dst[i]) == cap_name(mov[j - dst.len()]) {
                let k = choose|k: int|
                    0 <= k < reqs.len() && cap_name(#[trigger] reqs[k]) == cap_name(
                        mov[j - dst.len()],
                    );
                assert(!has_name(dst, cap_name(reqs[k])));
                assert(has_name(dst, cap_name(reqs[k]))) by {
                    assert(cap_name(dst[i]) == cap_name(reqs[k]));
                }
            }
        } else if i >= dst.len() {
            assert(dst2[i] == mov[i - dst.len()] && dst2[j] == mov[j - dst.len()]);
        } else {
            assert(dst2[i] == dst[i] && dst2[j] == dst[j]);
        }
    }
}

} // verus!
