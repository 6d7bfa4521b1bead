//! A generic message body: a command (named, or a three-digit numeric) and
//! its ordered parameters, of which only the last — the trailing parameter —
//! may contain spaces.

use vstd::prelude::*;

use crate::text::{contains_char, digit3_text, lemma_join_push, push_char, spec_digit3, spec_join};

verus! {

/// The mathematical shape of a command.
pub enum CommandModel {
    Digit3(int),
    Cmd(Seq<char>),
}

/// A command is valid when its numeric form lies in 1..=999 and its named
/// form is non-empty.
pub open spec fn command_valid(c: CommandModel) -> bool {
    match c {
        CommandModel::Digit3(v) => 1 <= v <= 999,
        CommandModel::Cmd(s) => s.len() > 0,
    }
}

/// A numeric command of at most three digits can be laid out on the wire.
pub open spec fn command_wf(c: CommandModel) -> bool {
    match c {
        CommandModel::Digit3(v) => 0 <= v <= 999,
        CommandModel::Cmd(_) => true,
    }
}

/// The wire text of a command: the word itself, or the number zero-padded
/// to three digits.
pub open spec fn spec_command_text(c: CommandModel) -> Seq<char> {
    match c {
        CommandModel::Digit3(v) => spec_digit3(v),
        CommandModel::Cmd(s) => s,
    }
}

#[derive(Debug, Clone, PartialEq)]
pub enum Command {
    Digit3(u32),
    Cmd(String),
}

impl View for Command {
    type V = CommandModel;

    open spec fn view(&self) -> CommandModel {
        match self {
            Command::Digit3(v) => CommandModel::Digit3(*v as int),
            Command::Cmd(s) => CommandModel::Cmd(s@),
        }
    }
}

impl Command {
    /// Whether the command meets the validity invariant of the data model.
    pub fn valid(&self) -> (b: bool)
        ensures
            b == command_valid(self@),
    {
        match self {
            Command::Digit3(v) => 1 <= *v && *v <= 999,
            Command::Cmd(s) => !s.as_str().is_empty(),
        }
    }

    /// The wire text of the command.
    pub fn text(&self) -> (r: String)
        requires
            command_wf(self@),
        ensures
            r@ == spec_command_text(self@),
    {
        match self {
            Command::Digit3(v) => digit3_text(*v),
            Command::Cmd(s) => s.clone(),
        }
    }
}

/// The mathematical shape of a generic message body.
pub struct GenericMessageModel {
    pub command: CommandModel,
    pub parameters: Seq<Seq<char>>,
}

pub open spec fn generic_wf(g: GenericMessageModel) -> bool {
    command_wf(g.command)
}

/// The wire text of the parameter list: every parameter but the last is
/// preceded by one space; the last is dropped when empty, and otherwise gets
/// a `:` prefix exactly when it contains a space.
pub open spec fn spec_params_text(ps: Seq<Seq<char>>) -> Seq<char> {
    if ps.len() == 0 {
        Seq::empty()
    } else {
        let middles = ps.take(ps.len() - 1);
        let trailing = ps.last();
        let mid_text = if middles.len() == 0 {
            Seq::<char>::empty()
        } else {
            seq![' '] + spec_join(middles, seq![' '])
        };
        let tr_text = if trailing.len() == 0 {
            Seq::<char>::empty()
        } else if trailing.contains(' ') {
            seq![' ', ':'] + trailing
        } else {
            seq![' '] + trailing
        };
        mid_text + tr_text
    }
}

pub open spec fn spec_generic_text(g: GenericMessageModel) -> Seq<char> {
    spec_command_text(g.command) + spec_params_text(g.parameters)
}

#[derive(Debug, Clone, PartialEq)]
pub struct GenericMessage {
    pub command: Command,
    pub parameters: Vec<String>,
}

impl View for GenericMessage {
    type V = GenericMessageModel;

    open spec fn view(&self) -> GenericMessageModel {
        GenericMessageModel { command: self.command@, parameters: self.parameters.deep_view() }
    }
}

impl GenericMessage {
    /// A body with the given command and no parameters yet.
    pub fn new(command: Command) -> (r: Self)
        ensures
            r@.command == command@,
            r@.parameters.len() == 0,
    {
        GenericMessage { command, parameters: Vec::new() }
    }

    /// A body with a named command.
    pub fn cmd(cmd: &str) -> (r: Self)
        ensures
            r@.command == CommandModel::Cmd(cmd@),
            r@.parameters.len() == 0,
    {
        Self::new(Command::Cmd(cmd.to_owned()))
    }

    /// A body with a numeric command.
    pub fn digit3(digit: u32) -> (r: Self)
        ensures
            r@.command == CommandModel::Digit3(digit as int),
            r@.parameters.len() == 0,
    {
        Self::new(Command::Digit3(digit))
    }

    /// Appends one parameter.
    pub fn param(self, param: &str) -> (r: Self)
        ensures
            r@.command == self@.command,
            r@.parameters == self@.parameters.push(param@),
    {
        let mut s = self;
        s.parameters.push(param.to_owned());
        proof {
            assert(s.parameters.deep_view() =~= self.parameters.deep_view().push(param@));
        }
        s
    }

    /// The wire text of the body.
    pub fn text(&self) -> (r: String)
        requires
            generic_wf(self@),
        ensures
            r@ == spec_generic_text(self@),
    {
        let mut r = self.command.text();
        let n = self.parameters.len();
        if n == 0 {
            proof {
                assert(r@ =~= spec_generic_text(self@));
            }
            return r;
        }
        let ghost ps = self@.parameters;
        let ghost middles = ps.take(ps.len() - 1);
        let ghost cmd_text = spec_command_text(self@.command);
        let mut j: usize = 0;
        while j < n - 1
            invariant
                j <= n - 1,
                n == self.parameters.len(),
                n >= 1,
                ps == self@.parameters,
                middles == ps.take(ps.len() - 1),
                cmd_text == spec_command_text(self@.command),
                j == 0 ==> r@ == cmd_text,
                j > 0 ==> r@ == cmd_text + seq![' '] + spec_join(
                    middles.take(j as int),
                    seq![' '],
                ),
            decreases n - 1 - j,
        {
            let ghost r0 = r@;
            r.append(" ");
            r.append(self.parameters[j].as_str());
            proof {
                reveal_strlit(" ");
                assert(" "@ =~= seq![' ']);
                assert(middles[j as int] == ps[j as int]);
                assert(ps[j as int] == self.parameters[j as int]@);
                if j == 0 {
                    assert(middles.take(1) =~= seq![middles[0]]);
                    assert(spec_join(middles.take(1), seq![' ']) == middles[0]);
                    assert(r@ =~= cmd_text + seq![' '] + spec_join(middles.take(1), seq![' ']));
                } else {
                    lemma_join_push(middles.take(j as int), seq![' '], middles[j as int]);
                    assert(middles.take(j as int + 1) =~= middles.take(j as int).push(
                        middles[j as int],
                    ));
                    assert(r@ =~= cmd_text + seq![' '] + spec_join(
                        middles.take(j as int + 1),
                        seq![' '],
                    ));
                }
            }
            j += 1;
        }
        proof {
            assert(middles.take(middles.len() as int) =~= middles);
        }
        let last = &self.parameters[n - 1];
        let ghost mid_text: Seq<char> = if middles.len() == 0 {
            Seq::<char>::empty()
        } else {
            seq![' '] + spec_join(middles, seq![' '])
        };
        proof {
            assert(r@ =~= cmd_text + mid_text);
            assert(ps.last() == last@);
        }
        if !last.as_str().is_empty() {
            if contains_char(last.as_str(), ' ') {
                r.append(" :");
                proof {
                    reveal_strlit(" :");
                    assert(" :"@ =~= seq![' ', ':']);
                }
            } else {
                r.append(" ");
                proof {
                    reveal_strlit(" ");
                    assert(" "@ =~= seq![' ']);
                }
            }
            r.append(last.as_str());
        }
        proof {
            assert(r@ =~= spec_generic_text(self@));
        }
        r
    }
}

} // verus!
