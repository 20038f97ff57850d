//! The interactive client: the commands it reads from a line, and the
//! transaction it keeps open between commands.

use crate::text::{split_whitespace, str_eq, views, words};
use vstd::prelude::*;

verus! {

/// A command that was given the wrong number of arguments.
#[derive(Clone, Copy, Debug, PartialEq, Eq, Structural)]
pub enum Usage {
    Get,
    Put,
    Watch,
}

impl Usage {
    /// The usage line printed for the command.
    pub open spec fn spec_text(self) -> Seq<char> {
        match self {
            Usage::Get => "usage: get <key>"@,
            Usage::Put => "usage: set <key> <value>"@,
            Usage::Watch => "usage: watch <key>"@,
        }
    }

    /// The usage line printed for the command.
    pub fn text(&self) -> (s: String)
        ensures
            s@ == self.spec_text(),
    {
        match self {
            Usage::Get => "usage: get <key>".to_owned(),
            Usage::Put => "usage: set <key> <value>".to_owned(),
            Usage::Watch => "usage: watch <key>".to_owned(),
        }
    }
}

/// A command read from a line.
pub enum Command {
    /// The line held no word.
    Empty,
    Get(String),
    Put(String, String),
    Delete(Vec<String>),
    Multi,
    Exec,
    Watch(String),
    Exit,
    /// A known command with the wrong number of arguments.
    Usage(Usage),
    /// An unknown command word.
    Unknown(String),
}

/// A command read from a line, over character sequences.
pub enum CommandView {
    Empty,
    Get(Seq<char>),
    Put(Seq<char>, Seq<char>),
    Delete(Seq<Seq<char>>),
    Multi,
    Exec,
    Watch(Seq<char>),
    Exit,
    Usage(Usage),
    Unknown(Seq<char>),
}

impl View for Command {
    type V = CommandView;

    open spec fn view(&self) -> CommandView {
        match self {
            Command::Empty => CommandView::Empty,
            Command::Get(k) => CommandView::Get(k@),
            Command::Put(k, v) => CommandView::Put(k@, v@),
            Command::Delete(ks) => CommandView::Delete(views(ks@)),
            Command::Multi => CommandView::Multi,
            Command::Exec => CommandView::Exec,
            Command::Watch(k) => CommandView::Watch(k@),
            Command::Exit => CommandView::Exit,
            Command::Usage(u) => CommandView::Usage(*u),
            Command::Unknown(c) => CommandView::Unknown(c@),
        }
    }
}

/// The command given by the words of a line: the first word names it, the
/// others are its arguments. `get` and `watch` take one argument, `set`
/// two, `delete` any number; `multi`, `exec` and `exit` ignore theirs.
pub open spec fn command_of(ws: Seq<Seq<char>>) -> CommandView {
    if ws.len() == 0 {
        CommandView::Empty
    } else {
        let cmd = ws[0];
        let args = ws.drop_first();
        if cmd == "get"@ {
            if args.len() != 1 {
                CommandView::Usage(Usage::Get)
            } else {
                CommandView::Get(args[0])
            }
        } else if cmd == "set"@ {
            if args.len() != 2 {
                CommandView::Usage(Usage::Put)
            } else {
                CommandView::Put(args[0], args[1])
            }
        } else if cmd == "delete"@ {
            CommandView::Delete(args)
        } else if cmd == "multi"@ {
            CommandView::Multi
        } else if cmd == "exec"@ {
            CommandView::Exec
        } else if cmd == "watch"@ {
            if args.len() != 1 {
                CommandView::Usage(Usage::Watch)
            } else {
                CommandView::Watch(args[0])
            }
        } else if cmd == "exit"@ {
            CommandView::Exit
        } else {
            CommandView::Unknown(cmd)
        }
    }
}

/// The first word of a line alone selects the command. `multi`, `exec` and
/// `exit` are selected whatever words follow; `delete` takes all the words
/// that follow as its keys; `get` and `watch` take their one argument and
/// `set` its two, and with any other number of words they read as the
/// command's usage; any other first word is unknown; and a line without
/// words is empty.
pub proof fn lemma_command_word_selects(ws: Seq<Seq<char>>)
    ensures
        ws.len() == 0 ==> command_of(ws) == CommandView::Empty,
        ws.len() > 0 && ws[0] == "multi"@ ==> command_of(ws) == CommandView::Multi,
        ws.len() > 0 && ws[0] == "exec"@ ==> command_of(ws) == CommandView::Exec,
        ws.len() > 0 && ws[0] == "exit"@ ==> command_of(ws) == CommandView::Exit,
        ws.len() > 0 && ws[0] == "delete"@ ==> command_of(ws) == CommandView::Delete(
            ws.subrange(1, ws.len() as int),
        ),
        ws.len() == 2 && ws[0] == "get"@ ==> command_of(ws) == CommandView::Get(ws[1]),
        ws.len() > 0 && ws.len() != 2 && ws[0] == "get"@ ==> command_of(ws) == CommandView::Usage(
            Usage::Get,
        ),
        ws.len() == 3 && ws[0] == "set"@ ==> command_of(ws) == CommandView::Put(ws[1], ws[2]),
        ws.len() > 0 && ws.len() != 3 && ws[0] == "set"@ ==> command_of(ws) == CommandView::Usage(
            Usage::Put,
        ),
        ws.len() == 2 && ws[0] == "watch"@ ==> command_of(ws) == CommandView::Watch(ws[1]),
        ws.len() > 0 && ws.len() != 2 && ws[0] == "watch"@ ==> command_of(ws)
            == CommandView::Usage(Usage::Watch),
        ws.len() > 0 && ws[0] != "multi"@ && ws[0] != "exec"@ && ws[0] != "exit"@ && ws[0]
            != "delete"@ && ws[0] != "get"@ && ws[0] != "set"@ && ws[0] != "watch"@ ==> command_of(
            ws,
        ) == CommandView::Unknown(ws[0]),
{
    reveal_strlit("multi");
    reveal_strlit("exec");
    reveal_strlit("exit");
    reveal_strlit("delete");
    reveal_strlit("get");
    reveal_strlit("set");
    reveal_strlit("watch");
    assert("multi"@.len() == 5 && "get"@.len() == 3 && "set"@.len() == 3 && "delete"@.len() == 6);
    assert("exec"@.len() == 4 && "exit"@.len() == 4 && "watch"@.len() == 5);
    assert("multi"@ != "get"@ && "multi"@ != "set"@ && "multi"@ != "delete"@);
    assert("exec"@ != "get"@ && "exec"@ != "set"@ && "exec"@ != "delete"@ && "exec"@
        != "multi"@);
    assert("set"@[0] != "get"@[0]);
    assert("set"@ != "get"@);
    assert("watch"@[0] != "multi"@[0]);
    assert("watch"@ != "get"@ && "watch"@ != "set"@ && "watch"@ != "delete"@ && "watch"@
        != "multi"@ && "watch"@ != "exec"@);
    assert("exit"@[2] != "exec"@[2]);
    assert("exit"@ != "get"@ && "exit"@ != "set"@ && "exit"@ != "delete"@ && "exit"@ != "multi"@
        && "exit"@ != "watch"@);
    assert("exit"@ != "exec"@);
    if ws.len() > 0 {
        assert(ws.drop_first() =~= ws.subrange(1, ws.len() as int));
    }
}

/// Reads the command on `line`.
pub fn parse_command(line: &str) -> (c: Command)
    ensures
        c@ == command_of(words(line@)),
        words(line@).len() > 0 && words(line@)[0] == "multi"@ ==> c is Multi,
        words(line@).len() > 0 && words(line@)[0] == "exec"@ ==> c is Exec,
        words(line@).len() > 0 && words(line@)[0] == "exit"@ ==> c is Exit,
{
    proof {
        lemma_command_word_selects(words(line@));
    }
    let w = split_whitespace(line);
    let ghost ws = words(line@);
    if w.len() == 0 {
        return Command::Empty;
    }
    let cmd = &w[0];
    assert(cmd@ == ws[0]);
    let n = w.len() - 1;
    if str_eq(cmd.as_str(), "get") {
        if n != 1 {
            Command::Usage(Usage::Get)
        } else {
            Command::Get(w[1].clone())
        }
    } else if str_eq(cmd.as_str(), "set") {
        if n != 2 {
            Command::Usage(Usage::Put)
        } else {
            Command::Put(w[1].clone(), w[2].clone())
        }
    } else if str_eq(cmd.as_str(), "delete") {
        let mut keys: Vec<String> = Vec::new();
        let mut i: usize = 1;
        while i < w.len()
            invariant
                1 <= i <= w@.len(),
                views(w@) == ws,
                views(keys@) == ws.subrange(1, i as int),
            decreases w@.len() - i,
        {
            let ghost before = views(keys@);
            keys.push(w[i].clone());
            assert(views(keys@) =~= before.push(ws[i as int]));
            assert(ws.subrange(1, i as int + 1) =~= ws.subrange(1, i as int).push(ws[i as int]));
            i = i + 1;
        }
        assert(ws.subrange(1, i as int) =~= ws.drop_first());
        Command::Delete(keys)
    } else if str_eq(cmd.as_str(), "multi") {
        Command::Multi
    } else if str_eq(cmd.as_str(), "exec") {
        Command::Exec
    } else if str_eq(cmd.as_str(), "watch") {
        if n != 1 {
            Command::Usage(Usage::Watch)
        } else {
            Command::Watch(w[1].clone())
        }
    } else if str_eq(cmd.as_str(), "exit") {
        Command::Exit
    } else {
        Command::Unknown(cmd.clone())
    }
}

/// What the client does for `multi`.
#[derive(Clone, Copy, Debug, PartialEq, Eq, Structural)]
pub enum MultiStep {
    /// A transaction is already open: answer its number without asking.
    Open(i64),
    /// Ask the proxy for a new transaction.
    Ask,
}

/// The transaction that the client keeps open between commands.
pub struct ClientSession {
    transaction_id: Option<i64>,
}

impl View for ClientSession {
    type V = Option<i64>;

    closed spec fn view(&self) -> Option<i64> {
        self.transaction_id
    }
}

impl ClientSession {
    /// A client outside any transaction.
    pub fn new() -> (s: Self)
        ensures
            s@ == None::<i64>,
    {
        ClientSession { transaction_id: None }
    }

    /// The open transaction, which writes and watches are sent in.
    pub fn transaction_id(&self) -> (t: Option<i64>)
        ensures
            t == self@,
    {
        self.transaction_id
    }

    /// What to do for `multi`.
    pub fn multi(&self) -> (step: MultiStep)
        ensures
            step == match self@ {
                Some(id) => MultiStep::Open(id),
                None => MultiStep::Ask,
            },
    {
        match self.transaction_id {
            Some(id) => MultiStep::Open(id),
            None => MultiStep::Ask,
        }
    }

    /// Takes the proxy's answer to `multi` (`None`: the request failed) and
    /// returns the transaction number to show (`0` when it failed).
    pub fn multi_answered(&mut self, answer: Option<i64>) -> (id: i64)
        ensures
            match answer {
                Some(t) => final(self)@ == Some(t) && id == t,
                None => final(self)@ == old(self)@ && id == 0,
            },
    {
        match answer {
            Some(t) => {
                self.transaction_id = Some(t);
                t
            },
            None => 0,
        }
    }

    /// The transaction that `exec` carries out (`None`: there is none, and
    /// nothing is sent).
    pub fn exec(&self) -> (t: Option<i64>)
        ensures
            t == self@,
    {
        self.transaction_id
    }

    /// The transaction ends once `exec` was sent, whatever the answer.
    pub fn exec_sent(&mut self)
        ensures
            final(self)@ == None::<i64>,
    {
        self.transaction_id = None;
    }
}

} // verus!
