use vstd::prelude::*;

verus! {

/// JSON output of `rspamc symbols`.
#[derive(Clone, Debug, PartialEq)]
pub struct RspamcSymbolsOutput {
    /// Action recommended, such as `no action` or `reject`.
    pub action: String,
}

/// JSON output of `rspamc learn_ham` or `rspamc learn_spam`; no field is
/// read.
#[derive(Clone, Debug, PartialEq)]
pub struct RspamcLearnOutput {}

/// JSON output of `rspamc`.
#[derive(Clone, Debug, PartialEq)]
pub struct RspamcResult {
    pub action: String,
}

/// The spam filter's subcommands.
#[derive(Clone, Copy, Debug, PartialEq, Eq, Structural)]
pub enum RspamcCommand {
    Symbols,
    LearnSpam,
    LearnHam,
}

pub open spec fn command_name(c: RspamcCommand) -> Seq<char> {
    match c {
        RspamcCommand::Symbols => seq!['s', 'y', 'm', 'b', 'o', 'l', 's'],
        RspamcCommand::LearnSpam => seq!['l', 'e', 'a', 'r', 'n', '_', 's', 'p', 'a', 'm'],
        RspamcCommand::LearnHam => seq!['l', 'e', 'a', 'r', 'n', '_', 'h', 'a', 'm'],
    }
}

pub open spec fn views(v: Seq<String>) -> Seq<Seq<char>> {
    v.map_values(|s: String| s@)
}

impl RspamcCommand {
    pub fn name(&self) -> (r: &'static str)
        ensures
            r@ == command_name(*self),
    {
        proof {
            reveal_strlit("symbols");
            reveal_strlit("learn_spam");
            reveal_strlit("learn_ham");
        }
        let r = match self {
            RspamcCommand::Symbols => "symbols",
            RspamcCommand::LearnSpam => "learn_spam",
            RspamcCommand::LearnHam => "learn_ham",
        };
        assert(r@ =~= command_name(*self));
        r
    }
}

/// A program to run and its arguments.
#[derive(Clone, Debug, PartialEq)]
pub struct Invocation {
    pub program: String,
    pub args: Vec<String>,
}

/// The program and arguments that run the configured spam filter command
/// with JSON output and a subcommand; `None` for an empty command.
pub fn rspamc_invocation(command: &Vec<String>, subcommand: RspamcCommand) -> (r: Option<Invocation>)
    ensures
        r is None <==> command@.len() == 0,
        r is Some ==> r->0.program@ == command@[0]@ && views(r->0.args@) == views(command@).subrange(1, command@.len() as int)
            + seq![seq!['-', '-', 'j', 's', 'o', 'n'], command_name(subcommand)],
{
    if command.len() == 0 {
        return None;
    }
    let program = command[0].clone();
    let mut args: Vec<String> = Vec::new();
    let mut i: usize = 1;
    while i < command.len()
        invariant
            1 <= i <= command@.len(),
            args@.len() == i - 1,
            forall|k: int| 0 <= k < args@.len() ==> #[trigger] args@[k]@ == command@[k + 1]@,
        decreases command@.len() - i,
    {
        args.push(command[i].clone());
        i = i + 1;
    }
    let json = "--json";
    proof {
        reveal_strlit("--json");
        assert(json@ =~= seq!['-', '-', 'j', 's', 'o', 'n']);
    }
    args.push(String::from_str(json));
    args.push(String::from_str(subcommand.name()));
    proof {
        assert(views(args@) =~= views(command@).subrange(1, command@.len() as int)
            + seq![seq!['-', '-', 'j', 's', 'o', 'n'], command_name(subcommand)]);
    }
    Some(Invocation { program, args })
}

/// The spam filter's output after its first line, which is a banner;
/// `None` when there is no line or nothing after it.
pub fn json_after_banner(stdout: &Vec<u8>) -> (r: Option<Vec<u8>>)
    ensures
        r is Some <==> exists|i: int| 0 <= i < stdout@.len() - 1 && stdout@[i] == 10u8 && forall|k: int| 0 <= k < i ==> stdout@[k] != 10u8,
        r is Some ==> exists|i: int| 0 <= i < stdout@.len() && stdout@[i] == 10u8 && (forall|k: int| 0 <= k < i ==> stdout@[k] != 10u8)
            && r->0@ == stdout@.subrange(i + 1, stdout@.len() as int),
{
    let n = stdout.len();
    let mut i: usize = 0;
    while i < n
        invariant
            n == stdout@.len(),
            i <= n,
            forall|k: int| 0 <= k < i ==> stdout@[k] != 10u8,
        decreases n - i,
    {
        if stdout[i] == 10u8 {
            if i + 1 >= n {
                proof {
                    assert forall|j: int| 0 <= j < stdout@.len() - 1 && stdout@[j] == 10u8 implies exists|k: int| 0 <= k < j && stdout@[k] == 10u8 by {
                        assert(j < i);
                    }
                }
                return None;
            }
            let mut rest: Vec<u8> = Vec::new();
            let mut j: usize = i + 1;
            while j < n
                invariant
                    n == stdout@.len(),
                    i + 1 <= j <= n,
                    rest@ == stdout@.subrange(i + 1, j as int),
                decreases n - j,
            {
                rest.push(stdout[j]);
                proof {
                    assert(rest@ =~= stdout@.subrange(i + 1, j + 1));
                }
                j = j + 1;
            }
            return Some(rest);
        }
        i = i + 1;
    }
    None
}

/// The sender address of a post's MIME rendering: the account identifier
/// when it names a domain, else the username at the local domain.
pub fn sender_address(acct: &str, username: &str, domain: &str) -> (r: String)
    ensures
        acct@.contains('@') ==> r@ == acct@,
        !acct@.contains('@') ==> r@ == username@ + seq!['@'] + domain@,
{
    let n = acct.unicode_len();
    let mut i: usize = 0;
    while i < n
        invariant
            n == acct@.len(),
            i <= n,
            forall|k: int| 0 <= k < i ==> acct@[k] != '@',
        decreases n - i,
    {
        if acct.get_char(i) == '@' {
            return acct.to_owned();
        }
        i = i + 1;
    }
    let at = "@";
    proof {
        reveal_strlit("@");
        assert(at@ =~= seq!['@']);
    }
    let mut r = String::from_str(username);
    r.append(at);
    r.append(domain);
    r
}

} // verus!
