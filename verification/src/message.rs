//! A whole wire message: tags, an optional source prefix, and a body that is
//! either a generic command with parameters or a capability-negotiation
//! message; with the builder for constructing messages programmatically and
//! the serializer that regenerates wire text.

use vstd::prelude::*;
use vstd::pervasive::unreached;

use crate::generic_message::{
    spec_generic_text, generic_wf, CommandModel, GenericMessage, GenericMessageModel,
};
use crate::msg_cap::{spec_msg_cap_text, MsgCap, MsgCapModel};
use crate::text::{
    join_strs, lemma_join_push, lemma_seq_lt_trans, push_char, seq_lt, spec_join, str_compare,
};

verus! {

/// The error of a builder misuse that is reported rather than trapped.
#[derive(Debug, Clone, PartialEq)]
pub enum MessageBuilderError {
    MultipleTrailingParameters,
}

/// The mathematical shape of one message tag.
pub struct TagModel {
    pub key: Seq<char>,
    pub value: Option<Seq<char>>,
}

/// One key/optional-value metadata pair of a message.
#[derive(Debug, Clone, PartialEq)]
pub struct Tag {
    pub key: String,
    pub value: Option<String>,
}

impl View for Tag {
    type V = TagModel;

    open spec fn view(&self) -> TagModel {
        TagModel { key: self.key@, value: self.value.deep_view() }
    }
}

impl DeepView for Tag {
    type V = TagModel;

    open spec fn deep_view(&self) -> TagModel {
        self.view()
    }
}

/// The tag list of a message is sorted strictly by key: keys are unique and
/// iteration order is deterministic.
pub open spec fn tags_wf(tags: Seq<TagModel>) -> bool {
    forall|i: int, j: int| 0 <= i < j < tags.len() ==> seq_lt(#[trigger] tags[i].key, #[trigger] tags[j].key)
}

/// The mathematical shape of a user source prefix.
pub struct UserModel {
    pub nick: Seq<char>,
    pub user: Option<Seq<char>>,
    pub host: Option<Seq<char>>,
}

/// A source prefix naming a user, with optional user and host parts.
#[derive(Debug, Clone, PartialEq)]
pub struct User {
    pub nick: String,
    pub user: Option<String>,
    pub host: Option<String>,
}

impl View for User {
    type V = UserModel;

    open spec fn view(&self) -> UserModel {
        UserModel {
            nick: self.nick@,
            user: self.user.deep_view(),
            host: self.host.deep_view(),
        }
    }
}

/// The mathematical shape of a message source.
pub enum SourceModel {
    Host(Seq<char>),
    User(UserModel),
}

/// The originator annotation of a message: a plain host name, or a user.
#[derive(Debug, Clone, PartialEq)]
pub enum Source {
    Host(String),
    User(User),
}

impl View for Source {
    type V = SourceModel;

    open spec fn view(&self) -> SourceModel {
        match self {
            Source::Host(h) => SourceModel::Host(h@),
            Source::User(u) => SourceModel::User(u@),
        }
    }
}

impl DeepView for Source {
    type V = SourceModel;

    open spec fn deep_view(&self) -> SourceModel {
        self.view()
    }
}

/// The mathematical shape of a message body.
pub enum MessageTypeModel {
    Generic(GenericMessageModel),
    Capability(MsgCapModel),
}

/// A message body: a generic command with parameters, or a capability
/// message.
#[derive(Debug, Clone, PartialEq)]
pub enum MessageType {
    Generic(GenericMessage),
    Capability(MsgCap),
}

impl View for MessageType {
    type V = MessageTypeModel;

    open spec fn view(&self) -> MessageTypeModel {
        match self {
            MessageType::Generic(g) => MessageTypeModel::Generic(g@),
            MessageType::Capability(c) => MessageTypeModel::Capability(c@),
        }
    }
}

impl MessageType {
    /// The wire text of the body alone.
    pub fn text(&self) -> (r: String)
        requires
            msg_type_wf(self@),
        ensures
            r@ == spec_msg_type_text(self@),
    {
        match self {
            MessageType::Generic(g) => g.text(),
            MessageType::Capability(c) => c.text(),
        }
    }
}

/// The mathematical shape of a whole message.
pub struct MessageModel {
    pub tags: Seq<TagModel>,
    pub source: Option<SourceModel>,
    pub msg_type: MessageTypeModel,
}

/// A whole message.
#[derive(Debug, Clone, PartialEq)]
pub struct Message {
    pub tags: Vec<Tag>,
    pub source: Option<Source>,
    pub msg_type: MessageType,
}

impl View for Message {
    type V = MessageModel;

    open spec fn view(&self) -> MessageModel {
        MessageModel {
            tags: self.tags.deep_view(),
            source: match &self.source {
                Some(s) => Some(s@),
                None => None,
            },
            msg_type: self.msg_type@,
        }
    }
}

impl DeepView for Message {
    type V = MessageModel;

    open spec fn deep_view(&self) -> MessageModel {
        self.view()
    }
}

/// A numeric command can be laid out; nothing else is needed to serialize.
pub open spec fn msg_type_wf(mt: MessageTypeModel) -> bool {
    match mt {
        MessageTypeModel::Generic(g) => generic_wf(g),
        MessageTypeModel::Capability(_) => true,
    }
}

pub open spec fn message_wf(m: MessageModel) -> bool {
    tags_wf(m.tags) && msg_type_wf(m.msg_type)
}

// ---------------------------------------------------------------------------
// Serialization.
// ---------------------------------------------------------------------------

/// The wire text of one tag: `key` or `key=value`.
pub open spec fn spec_tag_text(t: TagModel) -> Seq<char> {
    match t.value {
        Some(v) => t.key + seq!['='] + v,
        None => t.key,
    }
}

/// The wire text of the tag list: `@` and the `;`-joined tags, then a space —
/// or nothing at all when there are no tags.
pub open spec fn spec_tags_part(tags: Seq<TagModel>) -> Seq<char> {
    if tags.len() == 0 {
        Seq::empty()
    } else {
        seq!['@'] + spec_join(tags.map_values(|t: TagModel| spec_tag_text(t)), seq![';']) + seq![
            ' ',
        ]
    }
}

/// The wire text of a source: `name` for a host, `nick[!user][@host]` for a
/// user.
pub open spec fn spec_source_text(s: SourceModel) -> Seq<char> {
    match s {
        SourceModel::Host(n) => n,
        SourceModel::User(u) => u.nick + (match u.user {
            Some(us) => seq!['!'] + us,
            None => Seq::<char>::empty(),
        }) + (match u.host {
            Some(h) => seq!['@'] + h,
            None => Seq::<char>::empty(),
        }),
    }
}

/// The source part of a line: `:`, the source, a space — or nothing.
pub open spec fn spec_source_part(s: Option<SourceModel>) -> Seq<char> {
    match s {
        Some(src) => seq![':'] + spec_source_text(src) + seq![' '],
        None => Seq::empty(),
    }
}

pub open spec fn spec_msg_type_text(mt: MessageTypeModel) -> Seq<char> {
    match mt {
        MessageTypeModel::Generic(g) => spec_generic_text(g),
        MessageTypeModel::Capability(c) => spec_msg_cap_text(c),
    }
}

/// The whole line: tags part, source part, body.
pub open spec fn spec_message_text(m: MessageModel) -> Seq<char> {
    spec_tags_part(m.tags) + spec_source_part(m.source) + spec_msg_type_text(m.msg_type)
}

// ---------------------------------------------------------------------------
// Tag insertion.
//
// Inserting keeps the list sorted by key; a tag with an already present key
// replaces the old one.
// ---------------------------------------------------------------------------

pub open spec fn spec_tag_insert(tags: Seq<TagModel>, t: TagModel) -> Seq<TagModel>
    decreases tags.len(),
{
    if tags.len() == 0 {
        seq![t]
    } else if seq_lt(tags[0].key, t.key) {
        seq![tags[0]] + spec_tag_insert(tags.drop_first(), t)
    } else if t.key == tags[0].key {
        seq![t] + tags.drop_first()
    } else {
        seq![t] + tags
    }
}

/// Where the first key not below `t.key` sits at position `i`, the insertion
/// replaces position `i` on an equal key and splices `t` in before it
/// otherwise.
proof fn lemma_tag_insert_at(tags: Seq<TagModel>, t: TagModel, i: int)
    requires
        0 <= i <= tags.len(),
        forall|k: int| 0 <= k < i ==> seq_lt(#[trigger] tags[k].key, t.key),
        i < tags.len() ==> !seq_lt(tags[i].key, t.key),
    ensures
        spec_tag_insert(tags, t) == if i < tags.len() && tags[i].key == t.key {
            tags.update(i, t)
        } else {
            tags.insert(i, t)
        },
    decreases i,
{
    if i == 0 {
        if tags.len() == 0 {
            assert(spec_tag_insert(tags, t) =~= tags.insert(0, t));
        } else if tags[0].key == t.key {
            assert(seq![t] + tags.drop_first() =~= tags.update(0, t));
        } else {
            assert(seq![t] + tags =~= tags.insert(0, t));
        }
    } else {
        assert(seq_lt(tags[0].key, t.key));
        let rest = tags.drop_first();
        assert forall|k: int| 0 <= k < i - 1 implies seq_lt(#[trigger] rest[k].key, t.key) by {
            assert(rest[k] == tags[k + 1]);
        }
        lemma_tag_insert_at(rest, t, i - 1);
        if i < tags.len() && tags[i].key == t.key {
            assert(rest[i - 1] == tags[i]);
            assert(seq![tags[0]] + rest.update(i - 1, t) =~= tags.update(i, t));
        } else {
            assert(seq![tags[0]] + rest.insert(i - 1, t) =~= tags.insert(i, t));
        }
    }
}

/// Inserts `t` into a key-sorted tag list, replacing an equal key.
pub(crate) fn insert_tag(tags: Vec<Tag>, t: Tag) -> (r: Vec<Tag>)
    ensures
        r.deep_view() == spec_tag_insert(tags.deep_view(), t@),
        tags_wf(tags.deep_view()) ==> tags_wf(r.deep_view()),
{
    let ghost dv = tags.deep_view();
    let mut v = tags;
    let n = v.len();
    let mut i: usize = 0;
    loop
        invariant
            i <= n,
            n == v.len(),
            v.deep_view() == dv,
            forall|k: int| 0 <= k < i ==> seq_lt(#[trigger] dv[k].key, t@.key),
        ensures
            i <= n,
            v.deep_view() == dv,
            n == v.len(),
            forall|k: int| 0 <= k < i ==> seq_lt(#[trigger] dv[k].key, t@.key),
            i < n ==> !seq_lt(dv[i as int].key, t@.key),
        decreases n - i,
    {
        if i >= n {
            break ;
        }
        let c = str_compare(v[i].key.as_str(), t.key.as_str());
        if c >= 0 {
            break ;
        }
        proof {
            assert(dv[i as int].key == v[i as int]@.key);
        }
        i += 1;
    }
    proof {
        lemma_tag_insert_at(dv, t@, i as int);
    }
    if i < n {
        let c = str_compare(v[i].key.as_str(), t.key.as_str());
        if c == 0 {
            v.set(i, t);
            proof {
                assert(v.deep_view() =~= dv.update(i as int, t@));
                if tags_wf(dv) {
                    let rv = v.deep_view();
                    assert forall|a: int, b: int| 0 <= a < b < rv.len() implies seq_lt(
                        #[trigger] rv[a].key,
                        #[trigger] rv[b].key,
                    ) by {
                        assert(seq_lt(dv[a].key, dv[b].key));
                    }
                }
            }
        } else {
            proof {
                assert(c == 1);
                assert(seq_lt(t@.key, dv[i as int].key));
            }
            v.insert(i, t);
            proof {
                assert(v.deep_view() =~= dv.insert(i as int, t@));
                if tags_wf(dv) {
                    let rv = v.deep_view();
                    assert forall|a: int, b: int| 0 <= a < b < rv.len() implies seq_lt(
                        #[trigger] rv[a].key,
                        #[trigger] rv[b].key,
                    ) by {
                        if b < i {
                            assert(rv[a] == dv[a] && rv[b] == dv[b]);
                        } else if b == i {
                            assert(rv[a] == dv[a]);
                            assert(seq_lt(dv[a].key, t@.key));
                        } else if a < i {
                            assert(rv[a] == dv[a] && rv[b] == dv[b - 1]);
                            if a == b - 1 {
                                assert(seq_lt(dv[a].key, t@.key));
                                lemma_seq_lt_trans(dv[a].key, t@.key, dv[i as int].key);
                            }
                        } else if a == i {
                            assert(rv[b] == dv[b - 1] && b - 1 >= i);
                            if b - 1 == i {
                                assert(seq_lt(t@.key, dv[i as int].key));
                            } else {
                                lemma_seq_lt_trans(t@.key, dv[i as int].key, dv[b - 1].key);
                            }
                        } else {
                            assert(rv[a] == dv[a - 1] && rv[b] == dv[b - 1]);
                        }
                    }
                }
            }
        }
    } else {
        v.push(t);
        proof {
            assert(v.deep_view() =~= dv.insert(n as int, t@));
            if tags_wf(dv) {
                let rv = v.deep_view();
                assert forall|a: int, b: int| 0 <= a < b < rv.len() implies seq_lt(
                    #[trigger] rv[a].key,
                    #[trigger] rv[b].key,
                ) by {
                    if b < n {
                        assert(rv[a] == dv[a] && rv[b] == dv[b]);
                    } else {
                        assert(rv[a] == dv[a] && rv[b] == t@);
                    }
                }
            }
        }
    }
    v
}

/// The texts of the tags, in order.
fn tag_texts(tags: &Vec<Tag>) -> (r: Vec<String>)
    ensures
        r.deep_view() == tags.deep_view().map_values(|t: TagModel| spec_tag_text(t)),
{
    let mut r: Vec<String> = Vec::new();
    let mut i: usize = 0;
    while i < tags.len()
        invariant
            i <= tags.len(),
            r.deep_view() =~= tags.deep_view().take(i as int).map_values(
                |t: TagModel| spec_tag_text(t),
            ),
        decreases tags.len() - i,
    {
        let t = &tags[i];
        let mut text = t.key.clone();
        match &t.value {
            Some(v) => {
                push_char(&mut text, '=');
                text.append(v.as_str());
            },
            None => (),
        }
        proof {
            assert(text@ =~= spec_tag_text(tags.deep_view()[i as int]));
        }
        let ghost rdv0 = r.deep_view();
        r.push(text);
        proof {
            let dv = tags.deep_view();
            assert(r.deep_view() =~= rdv0.push(text@));
            assert(dv.take(i as int + 1) =~= dv.take(i as int).push(dv[i as int]));
            assert(r.deep_view() =~= dv.take(i as int + 1).map_values(
                |t: TagModel| spec_tag_text(t),
            ));
        }
        i += 1;
    }
    proof {
        assert(tags.deep_view().take(tags.len() as int) =~= tags.deep_view());
    }
    r
}

// ---------------------------------------------------------------------------
// The builder.
// ---------------------------------------------------------------------------

/// The model of a partially built message.
pub struct MessageBuilderModel {
    pub tags: Seq<TagModel>,
    pub source: Option<SourceModel>,
    pub msg_type: Option<MessageTypeModel>,
}

/// Accumulates tags, a source and a body; only a generic body accepts the
/// parameter operations.
pub struct MessageBuilder {
    tags: Vec<Tag>,
    source: Option<Source>,
    msg_type: Option<MessageType>,
}

impl View for MessageBuilder {
    type V = MessageBuilderModel;

    closed spec fn view(&self) -> MessageBuilderModel {
        MessageBuilderModel {
            tags: self.tags.deep_view(),
            source: match &self.source {
                Some(s) => Some(s@),
                None => None,
            },
            msg_type: match &self.msg_type {
                Some(mt) => Some(mt@),
                None => None,
            },
        }
    }
}

/// A generic body with one more parameter; a capability body is unchanged.
pub open spec fn spec_push_param(mt: MessageTypeModel, p: Seq<char>) -> MessageTypeModel {
    match mt {
        MessageTypeModel::Generic(g) => MessageTypeModel::Generic(
            GenericMessageModel { command: g.command, parameters: g.parameters.push(p) },
        ),
        MessageTypeModel::Capability(c) => MessageTypeModel::Capability(c),
    }
}

/// A generic body with its parameters replaced; a capability body is
/// unchanged.
pub open spec fn spec_set_params(mt: MessageTypeModel, ps: Seq<Seq<char>>) -> MessageTypeModel {
    match mt {
        MessageTypeModel::Generic(g) => MessageTypeModel::Generic(
            GenericMessageModel { command: g.command, parameters: ps },
        ),
        MessageTypeModel::Capability(c) => MessageTypeModel::Capability(c),
    }
}

impl MessageBuilder {
    fn new() -> (r: MessageBuilder)
        ensures
            r@.tags == Seq::<TagModel>::empty(),
            r@.source is None,
            r@.msg_type is None,
            tags_wf(r@.tags),
    {
        let r = MessageBuilder { tags: Vec::new(), source: None, msg_type: None };
        proof {
            assert(r@.tags =~= Seq::<TagModel>::empty());
        }
        r
    }

    /// Builds the message; a body must have been chosen.
    pub fn build(self) -> (r: Message)
        requires
            self@.msg_type is Some,
        ensures
            r@.tags == self@.tags,
            r@.source == self@.source,
            r@.msg_type == self@.msg_type.unwrap(),
    {
        let MessageBuilder { tags, source, msg_type } = self;
        let msg_type = match msg_type {
            Some(mt) => mt,
            None => unreached(),
        };
        Message { tags, source, msg_type }
    }

    /// Chooses the body.
    pub fn msg_type(self, msg_type: MessageType) -> (r: Self)
        ensures
            r@.tags == self@.tags,
            r@.source == self@.source,
            r@.msg_type == Some(msg_type@),
    {
        MessageBuilder { msg_type: Some(msg_type), ..self }
    }

    /// Appends one parameter to a generic body.
    pub fn param(self, parameter: &str) -> (r: Self)
        requires
            self@.msg_type is Some,
            self@.msg_type.unwrap() is Generic,
        ensures
            r@.tags == self@.tags,
            r@.source == self@.source,
            r@.msg_type == Some(spec_push_param(self@.msg_type.unwrap(), parameter@)),
    {
        let MessageBuilder { tags, source, msg_type } = self;
        let mt = match msg_type {
            Some(MessageType::Generic(g)) => MessageType::Generic(g.param(parameter)),
            _ => unreached(),
        };
        MessageBuilder { tags, source, msg_type: Some(mt) }
    }

    /// Replaces the parameters of a generic body.
    pub fn parameters(self, parameters: Vec<String>) -> (r: Self)
        requires
            self@.msg_type is Some,
            self@.msg_type.unwrap() is Generic,
        ensures
            r@.tags == self@.tags,
            r@.source == self@.source,
            r@.msg_type == Some(spec_set_params(self@.msg_type.unwrap(), parameters.deep_view())),
    {
        let MessageBuilder { tags, source, msg_type } = self;
        let mt = match msg_type {
            Some(MessageType::Generic(g)) => MessageType::Generic(
                GenericMessage { command: g.command, parameters },
            ),
            _ => unreached(),
        };
        MessageBuilder { tags, source, msg_type: Some(mt) }
    }

    /// Sets one tag, keeping the tag list sorted by key; an existing tag of
    /// the same key is replaced.
    pub fn tag(self, key: &str, value: Option<&str>) -> (r: Self)
        ensures
            r@.source == self@.source,
            r@.msg_type == self@.msg_type,
            r@.tags == spec_tag_insert(
                self@.tags,
                TagModel {
                    key: key@,
                    value: match value {
                        Some(v) => Some(v@),
                        None => None,
                    },
                },
            ),
            tags_wf(self@.tags) ==> tags_wf(r@.tags),
    {
        let t = Tag {
            key: key.to_owned(),
            value: match value {
                Some(v) => Some(v.to_owned()),
                None => None,
            },
        };
        let MessageBuilder { tags, source, msg_type } = self;
        let tags = insert_tag(tags, t);
        MessageBuilder { tags, source, msg_type }
    }

    /// Sets the source to a plain host name.
    pub fn host(self, host: &str) -> (r: Self)
        ensures
            r@.tags == self@.tags,
            r@.msg_type == self@.msg_type,
            r@.source == Some(SourceModel::Host(host@)),
    {
        MessageBuilder { source: Some(Source::Host(host.to_owned())), ..self }
    }

    /// Sets the source to a user.
    pub fn user(self, user: User) -> (r: Self)
        ensures
            r@.tags == self@.tags,
            r@.msg_type == self@.msg_type,
            r@.source == Some(SourceModel::User(user@)),
    {
        MessageBuilder { source: Some(Source::User(user)), ..self }
    }
}

impl Message {
    /// A builder with nothing chosen yet.
    pub fn builder() -> (r: MessageBuilder)
        ensures
            r@.tags == Seq::<TagModel>::empty(),
            r@.source is None,
            r@.msg_type is None,
            tags_wf(r@.tags),
    {
        MessageBuilder::new()
    }

    /// A builder whose body is the given generic message.
    pub fn generic(msg: GenericMessage) -> (r: MessageBuilder)
        ensures
            r@.tags == Seq::<TagModel>::empty(),
            r@.source is None,
            r@.msg_type == Some(MessageTypeModel::Generic(msg@)),
            tags_wf(r@.tags),
    {
        let msg_type = MessageType::Generic(msg);
        MessageBuilder::new().msg_type(msg_type)
    }

    /// A builder whose body is a named command without parameters.
    pub fn cmd(command: &str) -> (r: MessageBuilder)
        ensures
            r@.tags == Seq::<TagModel>::empty(),
            r@.source is None,
            tags_wf(r@.tags),
            r@.msg_type matches Some(MessageTypeModel::Generic(g)) && g.command
                == CommandModel::Cmd(command@) && g.parameters.len() == 0,
    {
        Self::generic(GenericMessage::cmd(command))
    }

    /// A builder whose body is a numeric command without parameters.
    pub fn digit3(digit: u32) -> (r: MessageBuilder)
        ensures
            r@.tags == Seq::<TagModel>::empty(),
            r@.source is None,
            tags_wf(r@.tags),
            r@.msg_type matches Some(MessageTypeModel::Generic(g)) && g.command
                == CommandModel::Digit3(digit as int) && g.parameters.len() == 0,
    {
        Self::generic(GenericMessage::digit3(digit))
    }

    /// A builder whose body is the given capability message.
    pub fn cap(msg_cap: MsgCap) -> (r: MessageBuilder)
        ensures
            r@.tags == Seq::<TagModel>::empty(),
            r@.source is None,
            r@.msg_type == Some(MessageTypeModel::Capability(msg_cap@)),
            tags_wf(r@.tags),
    {
        let msg_type = MessageType::Capability(msg_cap);
        MessageBuilder::new().msg_type(msg_type)
    }
}

impl Message {
    /// The wire text of the whole message.
    pub fn text(&self) -> (r: String)
        requires
            msg_type_wf(self@.msg_type),
        ensures
            r@ == spec_message_text(self@),
    {
        let mut r = String::new();
        if self.tags.len() > 0 {
            push_char(&mut r, '@');
            let texts = tag_texts(&self.tags);
            let joined = join_strs(&texts, ";");
            r.append(joined.as_str());
            push_char(&mut r, ' ');
            proof {
                reveal_strlit(";");
                assert(";"@ =~= seq![';']);
                assert(r@ =~= spec_tags_part(self@.tags));
            }
        }
        proof {
            assert(r@ =~= spec_tags_part(self@.tags));
        }
        match &self.source {
            Some(src) => {
                push_char(&mut r, ':');
                match src {
                    Source::Host(n) => {
                        r.append(n.as_str());
                    },
                    Source::User(u) => {
                        r.append(u.nick.as_str());
                        match &u.user {
                            Some(us) => {
                                push_char(&mut r, '!');
                                r.append(us.as_str());
                            },
                            None => (),
                        }
                        match &u.host {
                            Some(h) => {
                                push_char(&mut r, '@');
                                r.append(h.as_str());
                            },
                            None => (),
                        }
                    },
                }
                push_char(&mut r, ' ');
            },
            None => (),
        }
        proof {
            assert(r@ =~= spec_tags_part(self@.tags) + spec_source_part(self@.source));
        }
        let body = match &self.msg_type {
            MessageType::Generic(g) => g.text(),
            MessageType::Capability(c) => c.text(),
        };
        r.append(body.as_str());
        proof {
            assert(r@ =~= spec_message_text(self@));
        }
        r
    }
}

} // verus!
