//! The interactive command line: its editing state and the decision of
//! what a committed command asks for. Running the command (loading a
//! file, redrawing) belongs to the caller.

use vstd::prelude::*;

verus! {

/// The editing state of the interactive command line.
#[derive(Debug)]
pub struct CommandState {
    active: bool,
    buffer: String,
    error_message: Option<String>,
}

/// What a committed command asks the session to do.
#[derive(Debug)]
pub enum CommandAction {
    /// Load the points of this file and add them to the cloud.
    LoadPath(String),
    /// Remove every loaded point.
    ClearPoints,
    /// An empty command: nothing to do.
    Nothing,
    /// An unrecognized command.
    Unknown,
}

/// Leading spaces removed.
pub open spec fn trim_front(s: Seq<char>) -> Seq<char>
    decreases s.len(),
{
    if s.len() > 0 && s[0] == ' ' {
        trim_front(s.drop_first())
    } else {
        s
    }
}

/// Trailing spaces removed.
pub open spec fn trim_back(s: Seq<char>) -> Seq<char>
    decreases s.len(),
{
    if s.len() > 0 && s[s.len() - 1] == ' ' {
        trim_back(s.drop_last())
    } else {
        s
    }
}

/// Surrounding spaces removed.
pub open spec fn trimmed(s: Seq<char>) -> Seq<char> {
    trim_back(trim_front(s))
}

impl CommandState {
    /// Whether command mode is active.
    pub closed spec fn active_spec(&self) -> bool {
        self.active
    }

    /// The characters typed so far.
    pub closed spec fn buffer_spec(&self) -> Seq<char> {
        self.buffer@
    }

    /// The recorded error message, if any.
    pub closed spec fn error_spec(&self) -> Option<String> {
        self.error_message
    }

    /// Creates an inactive command line with an empty buffer.
    pub fn new() -> (s: Self)
        ensures
            !s.active_spec(),
            s.buffer_spec() == Seq::<char>::empty(),
            s.error_spec() is None,
    {
        CommandState { active: false, buffer: String::new(), error_message: None }
    }

    /// Enters command mode with a fresh buffer and no error.
    pub fn enter_command_mode(&mut self)
        ensures
            final(self).active_spec(),
            final(self).buffer_spec() == Seq::<char>::empty(),
            final(self).error_spec() is None,
    {
        self.active = true;
        self.buffer = String::new();
        self.error_message = None;
    }

    /// Leaves command mode, clearing the buffer.
    pub fn exit_command_mode(&mut self)
        ensures
            !final(self).active_spec(),
            final(self).buffer_spec() == Seq::<char>::empty(),
            final(self).error_spec() == old(self).error_spec(),
    {
        self.active = false;
        self.buffer = String::new();
    }

    /// Appends one typed character.
    pub fn add_char(&mut self, c: char)
        ensures
            final(self).buffer_spec() == old(self).buffer_spec().push(c),
            final(self).active_spec() == old(self).active_spec(),
            final(self).error_spec() == old(self).error_spec(),
    {
        self.buffer.push(c);
    }

    /// Removes the last typed character, if any.
    pub fn backspace(&mut self)
        ensures
            old(self).buffer_spec().len() == 0 ==> final(self).buffer_spec() == old(
                self,
            ).buffer_spec(),
            old(self).buffer_spec().len() > 0 ==> final(self).buffer_spec() == old(
                self,
            ).buffer_spec().drop_last(),
            final(self).active_spec() == old(self).active_spec(),
            final(self).error_spec() == old(self).error_spec(),
    {
        let n: usize = self.buffer.as_str().unicode_len();
        if n > 0 {
            let chars: Vec<char> = chars_of(&self.buffer);
            let mut fresh: String = String::new();
            let mut i: usize = 0;
            while i < n - 1
                invariant
                    i <= n - 1,
                    n == chars@.len(),
                    chars@ == old(self).buffer_spec(),
                    n > 0,
                    fresh@ == chars@.subrange(0, i as int),
                decreases n - 1 - i,
            {
                fresh.push(chars[i]);
                proof {
                    assert(fresh@ =~= chars@.subrange(0, i + 1));
                }
                i = i + 1;
            }
            proof {
                assert(fresh@ =~= old(self).buffer_spec().drop_last());
            }
            self.buffer = fresh;
        }
    }

    /// Records an error message to show the user.
    pub fn set_error(&mut self, message: String)
        ensures
            final(self).error_spec() == Some(message),
            final(self).active_spec() == old(self).active_spec(),
            final(self).buffer_spec() == old(self).buffer_spec(),
    {
        self.error_message = Some(message);
    }

    /// Clears the recorded error.
    pub fn clear_error(&mut self)
        ensures
            final(self).error_spec() is None,
            final(self).active_spec() == old(self).active_spec(),
            final(self).buffer_spec() == old(self).buffer_spec(),
    {
        self.error_message = None;
    }

    /// Whether command mode is active.
    pub fn is_active(&self) -> (r: bool)
        ensures
            r == self.active_spec(),
    {
        self.active
    }

    /// The recorded error message, if any.
    pub fn error_message(&self) -> (r: Option<&String>)
        ensures
            r is Some <==> self.error_spec() is Some,
            r matches Some(m) ==> Some(*m) == self.error_spec(),
    {
        self.error_message.as_ref()
    }

    /// Decides what the typed command asks for: a `load` command
    /// carries its path (itself trimmed), `clear` empties the cloud, an
    /// empty line does nothing, and anything else is unknown.
    pub fn command_action(&self) -> (r: CommandAction)
        ensures
            ({
                let cmd = trimmed(self.buffer_spec());
                let loads = cmd.len() >= 5 && cmd.subrange(0, 5) == "load "@;
                &&& (loads ==> (r matches CommandAction::LoadPath(p) && p@ == trimmed(
                    cmd.subrange(5, cmd.len() as int),
                )))
                &&& (!loads && cmd == "clear"@ ==> r is ClearPoints)
                &&& (!loads && cmd != "clear"@ && cmd.len() == 0 ==> r is Nothing)
                &&& (!loads && cmd != "clear"@ && cmd.len() > 0 ==> r is Unknown)
            }),
    {
        let chars: Vec<char> = chars_of(&self.buffer);
        let cmd: Vec<char> = trim_chars(&chars);
        let is_load: bool = cmd.len() >= 5 && cmd[0] == 'l' && cmd[1] == 'o' && cmd[2] == 'a'
            && cmd[3] == 'd' && cmd[4] == ' ';
        proof {
            reveal_strlit("load ");
            assert("load "@.len() == 5 && "load "@[0] == 'l' && "load "@[1] == 'o' && "load "@[2]
                == 'a' && "load "@[3] == 'd' && "load "@[4] == ' ');
            if cmd@.len() >= 5 {
                if cmd@[0] == 'l' && cmd@[1] == 'o' && cmd@[2] == 'a' && cmd@[3] == 'd' && cmd@[4]
                    == ' ' {
                    assert(cmd@.subrange(0, 5) =~= "load "@);
                }
                if cmd@.subrange(0, 5) == "load "@ {
                    assert(cmd@[0] == cmd@.subrange(0, 5)[0]);
                    assert(cmd@[1] == cmd@.subrange(0, 5)[1]);
                    assert(cmd@[2] == cmd@.subrange(0, 5)[2]);
                    assert(cmd@[3] == cmd@.subrange(0, 5)[3]);
                    assert(cmd@[4] == cmd@.subrange(0, 5)[4]);
                }
            }
        }
        if is_load {
            let mut rest: Vec<char> = Vec::new();
            let mut i: usize = 5;
            while i < cmd.len()
                invariant
                    5 <= i <= cmd@.len(),
                    cmd@.len() >= 5,
                    rest@ == cmd@.subrange(5, i as int),
                decreases cmd@.len() - i,
            {
                rest.push(cmd[i]);
                proof {
                    assert(rest@ =~= cmd@.subrange(5, i + 1));
                }
                i = i + 1;
            }
            proof {
                assert(rest@ =~= cmd@.subrange(5, cmd@.len() as int));
            }
            let path_chars: Vec<char> = trim_chars(&rest);
            let mut path: String = String::new();
            let mut j: usize = 0;
            while j < path_chars.len()
                invariant
                    j <= path_chars@.len(),
                    path@ == path_chars@.subrange(0, j as int),
                decreases path_chars@.len() - j,
            {
                path.push(path_chars[j]);
                proof {
                    assert(path@ =~= path_chars@.subrange(0, j + 1));
                }
                j = j + 1;
            }
            proof {
                assert(path@ =~= path_chars@);
            }
            CommandAction::LoadPath(path)
        } else if cmd.len() == 5 && cmd[0] == 'c' && cmd[1] == 'l' && cmd[2] == 'e' && cmd[3]
            == 'a' && cmd[4] == 'r' {
            proof {
                reveal_strlit("clear");
                assert(cmd@ =~= "clear"@);
            }
            CommandAction::ClearPoints
        } else if cmd.len() == 0 {
            proof {
                reveal_strlit("clear");
                reveal_strlit("load ");
            }
            CommandAction::Nothing
        } else {
            proof {
                reveal_strlit("clear");
                reveal_strlit("load ");
                if cmd@ == "clear"@ {
                    assert(cmd@.len() == 5 && cmd@[0] == 'c' && cmd@[1] == 'l' && cmd@[2] == 'e'
                        && cmd@[3] == 'a' && cmd@[4] == 'r');
                }
            }
            CommandAction::Unknown
        }
    }
}

/// The characters of a string, in order.
pub fn chars_of(s: &String) -> (r: Vec<char>)
    ensures
        r@ == s@,
{
    let n: usize = s.as_str().unicode_len();
    let mut r: Vec<char> = Vec::new();
    let mut i: usize = 0;
    while i < n
        invariant
            i <= n,
            n == s@.len(),
            r@ == s@.subrange(0, i as int),
        decreases n - i,
    {
        let c: char = s.as_str().get_char(i);
        r.push(c);
        proof {
            assert(r@ =~= s@.subrange(0, i + 1));
        }
        i = i + 1;
    }
    proof {
        assert(r@ =~= s@);
    }
    r
}

/// Removes the surrounding spaces of a character sequence.
pub fn trim_chars(v: &Vec<char>) -> (r: Vec<char>)
    ensures
        r@ == trimmed(v@),
{
    let mut start: usize = 0;
    let n: usize = v.len();
    proof {
        assert(v@.subrange(0, n as int) =~= v@);
    }
    while start < n && v[start] == ' '
        invariant
            start <= n,
            n == v@.len(),
            trim_front(v@) == trim_front(v@.subrange(start as int, n as int)),
        decreases n - start,
    {
        proof {
            let cur = v@.subrange(start as int, n as int);
            assert(cur[0] == ' ');
            assert(cur.drop_first() =~= v@.subrange(start + 1, n as int));
        }
        start = start + 1;
    }
    proof {
        let cur = v@.subrange(start as int, n as int);
        if cur.len() > 0 {
            assert(cur[0] != ' ');
        }
        assert(trim_front(v@) == cur);
    }
    let mut end: usize = n;
    while end > start && v[end - 1] == ' '
        invariant
            start <= end <= n,
            n == v@.len(),
            trim_front(v@) == v@.subrange(start as int, n as int),
            trim_back(v@.subrange(start as int, n as int)) == trim_back(
                v@.subrange(start as int, end as int),
            ),
        decreases end,
    {
        proof {
            let cur = v@.subrange(start as int, end as int);
            assert(cur[cur.len() - 1] == ' ');
            assert(cur.drop_last() =~= v@.subrange(start as int, end - 1));
        }
        end = end - 1;
    }
    proof {
        let cur = v@.subrange(start as int, end as int);
        if cur.len() > 0 {
            assert(cur[cur.len() - 1] != ' ');
        }
        assert(trimmed(v@) == cur);
    }
    let mut r: Vec<char> = Vec::new();
    let mut i: usize = start;
    while i < end
        invariant
            start <= i <= end <= n,
            n == v@.len(),
            r@ == v@.subrange(start as int, i as int),
        decreases end - i,
    {
        r.push(v[i]);
        proof {
            assert(r@ =~= v@.subrange(start as int, i + 1));
        }
        i = i + 1;
    }
    proof {
        assert(r@ =~= v@.subrange(start as int, end as int));
    }
    r
}

} // verus!
