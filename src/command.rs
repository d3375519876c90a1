use vstd::prelude::*;
use vstd::string::StrSliceExecFns;

verus! {

/// What a text message sent to the webhook asks for.
#[derive(PartialEq, Eq, Structural, Debug, Clone, Copy)]
pub enum Command {
    Help,
    ShowChannel,
    ShowSubscribe,
    DelChannel,
    CreateChannel,
    Subscribe,
    Unsubscribe,
    /// Anything else: the text is sent back.
    Echo,
}

/// The command a text asks for: `help` exactly, else the first of the
/// command words it starts with.
pub open spec fn command_of(s: Seq<char>) -> Command {
    if s == "help"@ {
        Command::Help
    } else if "show channel"@.is_prefix_of(s) {
        Command::ShowChannel
    } else if "show subscribe"@.is_prefix_of(s) {
        Command::ShowSubscribe
    } else if "del channel"@.is_prefix_of(s) {
        Command::DelChannel
    } else if "create channel"@.is_prefix_of(s) {
        Command::CreateChannel
    } else if "subscribe"@.is_prefix_of(s) {
        Command::Subscribe
    } else if "unsubscribe"@.is_prefix_of(s) {
        Command::Unsubscribe
    } else {
        Command::Echo
    }
}

/// The rest of `s` after its first `k` spaces; `None` where it has fewer.
pub open spec fn after_spaces(s: Seq<char>, k: nat) -> Option<Seq<char>>
    decreases s.len(),
{
    if k == 0 {
        Some(s)
    } else if s.len() == 0 {
        None
    } else if s[0] == ' ' {
        after_spaces(s.drop_first(), (k - 1) as nat)
    } else {
        after_spaces(s.drop_first(), k)
    }
}

/// Whether `s` starts with `p`.
pub fn has_prefix(s: &str, p: &str) -> (r: bool)
    ensures
        r == p@.is_prefix_of(s@),
{
    let n = s.unicode_len();
    let m = p.unicode_len();
    if m > n {
        return false;
    }
    let mut i: usize = 0;
    while i < m
        invariant
            n == s@.len(),
            m == p@.len(),
            m <= n,
            0 <= i <= m,
            forall|j: int| 0 <= j < i ==> p@[j] == s@[j],
        decreases m - i,
    {
        if s.get_char(i) != p.get_char(i) {
            assert(p@[i as int] != s@.subrange(0, m as int)[i as int]);
            return false;
        }
        i = i + 1;
    }
    assert(p@ =~= s@.subrange(0, m as int));
    true
}

/// The command that the text `content` asks for.
pub fn classify_command(content: &str) -> (r: Command)
    ensures
        r == command_of(content@),
{
    if content.to_owned() == "help".to_owned() {
        Command::Help
    } else if has_prefix(content, "show channel") {
        Command::ShowChannel
    } else if has_prefix(content, "show subscribe") {
        Command::ShowSubscribe
    } else if has_prefix(content, "del channel") {
        Command::DelChannel
    } else if has_prefix(content, "create channel") {
        Command::CreateChannel
    } else if has_prefix(content, "subscribe") {
        Command::Subscribe
    } else if has_prefix(content, "unsubscribe") {
        Command::Unsubscribe
    } else {
        Command::Echo
    }
}

/// The argument of a command: what follows its first `skip` spaces, or
/// `None` where the text has fewer.
pub fn command_argument(content: &str, skip: usize) -> (r: Option<String>)
    ensures
        match r {
            Some(a) => after_spaces(content@, skip as nat) == Some(a@),
            None => after_spaces(content@, skip as nat) is None,
        },
{
    let n = content.unicode_len();
    let mut i: usize = 0;
    let mut left: usize = skip;
    assert(content@.subrange(0, n as int) =~= content@);
    while left > 0 && i < n
        invariant
            n == content@.len(),
            0 <= i <= n,
            after_spaces(content@, skip as nat) == after_spaces(content@.subrange(i as int, n as int), left as nat),
        decreases n - i,
    {
        let c = content.get_char(i);
        let ghost rest = content@.subrange(i as int, n as int);
        assert(rest[0] == c);
        assert(rest.drop_first() =~= content@.subrange(i + 1, n as int));
        if c == ' ' {
            left = left - 1;
        }
        i = i + 1;
    }
    if left > 0 {
        return None;
    }
    Some(content.substring_char(i, n).to_owned())
}

} // verus!
