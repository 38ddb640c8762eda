use vstd::prelude::*;
use vstd::string::StringExecFns;

verus! {

broadcast use vstd::string::next_postcondition;

pub open spec fn is_digit_char(c: char) -> bool {
    '0' <= c && c <= '9'
}

/// The decimal digits of a character sequence, in order, with every
/// other character removed.
pub open spec fn digits_of(s: Seq<char>) -> Seq<char>
    decreases s,
{
    if s.len() == 0 {
        Seq::empty()
    } else {
        digits_of(s.drop_last()) + (if is_digit_char(s.last()) {
            seq![s.last()]
        } else {
            Seq::empty()
        })
    }
}

fn digit_str(c: char) -> (r: Option<&'static str>)
    ensures
        match r {
            Some(d) => is_digit_char(c) && d@ == seq![c],
            None => !is_digit_char(c),
        },
{
    proof {
        reveal_strlit("0");
        reveal_strlit("1");
        reveal_strlit("2");
        reveal_strlit("3");
        reveal_strlit("4");
        reveal_strlit("5");
        reveal_strlit("6");
        reveal_strlit("7");
        reveal_strlit("8");
        reveal_strlit("9");
    }
    match c {
        '0' => Some("0"),
        '1' => Some("1"),
        '2' => Some("2"),
        '3' => Some("3"),
        '4' => Some("4"),
        '5' => Some("5"),
        '6' => Some("6"),
        '7' => Some("7"),
        '8' => Some("8"),
        '9' => Some("9"),
        _ => None,
    }
}

/// Free-text sanitization for a numeric input field: keeps the
/// decimal digits of the input, in order, and drops everything else.
/// The cursor position plays no part.
#[verifier::loop_isolation(false)]
pub fn validate_number(input: String, _cursor_position: usize) -> (r: String)
    ensures
        r@ == digits_of(input@),
{
    let mut out = String::new();
    let s = input.as_str();
    let mut it = s.chars();
    let ghost mut i: int = 0;
    proof {
        vstd::string::axiom_spec_iter(s);
    }
    loop
        invariant
            0 <= i <= input@.len(),
            vstd::std_specs::iter::IteratorSpec::remaining(&it) =~= input@.skip(i),
            vstd::std_specs::iter::IteratorSpec::obeys_prophetic_iter_laws(&it),
            out@ == digits_of(input@.take(i)),
        decreases input@.len() - i,
    {
        let ghost rem = vstd::std_specs::iter::IteratorSpec::remaining(&it);
        match it.next() {
            Some(c) => {
                proof {
                    assert(rem.len() > 0);
                    assert(c == input@[i]);
                }
                match digit_str(c) {
                    Some(d) => {
                        out.append(d);
                    },
                    None => (),
                }
                proof {
                    let t = input@.take(i + 1);
                    assert(t.drop_last() =~= input@.take(i));
                    assert(t.last() == input@[i]);
                    assert(input@.skip(i).drop_first() =~= input@.skip(i + 1));
                    i = i + 1;
                }
            },
            None => {
                proof {
                    assert(rem.len() == 0);
                    assert(input@.skip(i).len() == 0);
                    assert(input@.take(i) =~= input@);
                }
                break ;
            },
        }
    }
    out
}

/// A screen of the interactive registration workflow.
#[derive(PartialEq, Eq, Structural, Debug, Clone, Copy)]
pub enum Screen {
    ChainId,
    RpcUrl,
    EnterAddress,
}

/// What one workflow step yields: another screen to show, or the end
/// of the workflow.
#[derive(PartialEq, Eq, Structural, Debug, Clone, Copy)]
pub enum WorkflowResult {
    NextScreen(Screen),
    Finished,
}

/// The screen shown at each step index: chain id, then rpc url, then
/// the address prompt, then done.
pub open spec fn screen_at(n: int) -> WorkflowResult {
    if n == 1 {
        WorkflowResult::NextScreen(Screen::ChainId)
    } else if n == 2 {
        WorkflowResult::NextScreen(Screen::RpcUrl)
    } else if n == 3 {
        WorkflowResult::NextScreen(Screen::EnterAddress)
    } else {
        WorkflowResult::Finished
    }
}

/// The finite-state machine behind the contract-registration
/// workflow: a step counter over the fixed screen sequence. The
/// surrounding terminal loop owns nested workflows and performs the
/// screen I/O; this machine only decides what comes next.
pub struct RegisterContractWorkflow {
    pub current_screen: usize,
}

impl RegisterContractWorkflow {
    pub fn new() -> (s: Self)
        ensures
            s.current_screen == 0,
    {
        RegisterContractWorkflow { current_screen: 0 }
    }

    pub fn get_screen(&self) -> (r: WorkflowResult)
        ensures
            r == screen_at(self.current_screen as int),
    {
        match self.current_screen {
            1 => WorkflowResult::NextScreen(Screen::ChainId),
            2 => WorkflowResult::NextScreen(Screen::RpcUrl),
            3 => WorkflowResult::NextScreen(Screen::EnterAddress),
            _ => WorkflowResult::Finished,
        }
    }

    /// Advances once the nested workflows have finished.
    pub fn next_screen(&mut self) -> (r: WorkflowResult)
        requires
            old(self).current_screen < usize::MAX,
        ensures
            final(self).current_screen == old(self).current_screen + 1,
            r == screen_at(final(self).current_screen as int),
    {
        self.current_screen = self.current_screen + 1;
        self.get_screen()
    }

    /// Steps back, but never before the first screen.
    pub fn previous_screen(&mut self) -> (r: WorkflowResult)
        ensures
            final(self).current_screen == (if old(self).current_screen > 1 {
                old(self).current_screen - 1
            } else {
                old(self).current_screen as int
            }),
            r == screen_at(final(self).current_screen as int),
    {
        if self.current_screen > 1 {
            self.current_screen = self.current_screen - 1;
        }
        self.get_screen()
    }

    /// On a connection failure at the rpc-url step the workflow
    /// returns to that screen; every other error ends the workflow.
    pub fn handle_error(&mut self, is_connection_error: bool) -> (r: WorkflowResult)
        ensures
            *final(self) == *old(self),
            r == (if old(self).current_screen == 2 && is_connection_error {
                WorkflowResult::NextScreen(Screen::RpcUrl)
            } else {
                WorkflowResult::Finished
            }),
    {
        match self.current_screen {
            2 => {
                if is_connection_error {
                    return WorkflowResult::NextScreen(Screen::RpcUrl);
                }
                WorkflowResult::Finished
            },
            _ => WorkflowResult::Finished,
        }
    }
}

} // verus!
