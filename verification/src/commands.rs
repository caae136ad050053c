//! The requests that the daemon sends to sway, and what it makes of the
//! replies.

use crate::text::{decimal, decimal_value, joined, signed_value};
use crate::text::{law_decimal_is_canonical, law_signed_decimal_is_unambiguous};
use crate::text::law_signed_decimal_reads_back;
use crate::text::{push_decimal, push_signed_decimal, signed_decimal};
use vstd::prelude::*;
use vstd::string::*;

verus! {

/// What became of a request to run a command.
pub enum Reply {
    /// The request itself failed, for this reason.
    Failed(String),
    /// Sway answered. For each command in the request: whether it was rejected.
    Answered(Vec<bool>),
}

/// The key events that the daemon binds.
pub enum Binding {
    /// Alt+Tab was pressed.
    Press,
    /// Tab was released while Alt is held.
    Release,
}

/// What to do next while setting up the bindings.
pub enum SetupStep {
    /// Run the command that installs the binding, and hand in the reply.
    Run(Binding, String),
    /// Give up, for this reason.
    Failed(String),
    /// The daemon can go on; print the warning, if there is one.
    Done(Option<String>),
}

impl Binding {
    /// The key event as sway's `bindsym` and `unbindsym` take it.
    pub open spec fn key(self) -> Seq<char> {
        match self {
            Binding::Press => "Alt+Tab"@,
            Binding::Release => "--release Alt+Tab"@,
        }
    }

    /// The signal that the key event sends, as `kill` takes it.
    pub open spec fn signal(self) -> Seq<char> {
        match self {
            Binding::Press => "USR1"@,
            Binding::Release => "RTMIN"@,
        }
    }

    /// The command that makes sway signal the process `pid` on the key event.
    pub open spec fn bind_text(self, pid: u32) -> Seq<char> {
        "bindsym "@ + self.key() + " exec kill -"@ + self.signal() + " "@ + decimal(pid as nat)
    }

    /// The command that takes the binding out again.
    pub open spec fn unbind_text(self) -> Seq<char> {
        "unbindsym "@ + self.key()
    }

    fn key_text(&self) -> (text: &'static str)
        ensures
            text@ == self.key(),
    {
        match self {
            Binding::Press => "Alt+Tab",
            Binding::Release => "--release Alt+Tab",
        }
    }

    fn signal_text(&self) -> (text: &'static str)
        ensures
            text@ == self.signal(),
    {
        match self {
            Binding::Press => "USR1",
            Binding::Release => "RTMIN",
        }
    }

    /// The command that installs this binding.
    pub fn bind_command(&self, pid: u32) -> (command: String)
        ensures
            command@ == self.bind_text(pid),
    {
        let mut command: String = joined("bindsym ", self.key_text());
        command.append(" exec kill -");
        command.append(self.signal_text());
        command.append(" ");
        push_decimal(&mut command, pid as u64);
        command
    }

    /// The command that removes this binding.
    pub fn unbind_command(&self) -> (command: String)
        ensures
            command@ == self.unbind_text(),
    {
        joined("unbindsym ", self.key_text())
    }
}

/// The command that gives the window `con_id` the focus.
pub open spec fn focus_text(con_id: i64) -> Seq<char> {
    "[con_id="@ + signed_decimal(con_id as int) + "] focus"@
}

/// The command that gives the window `con_id` the focus.
pub fn focus_command(con_id: i64) -> (command: String)
    ensures
        command@ == focus_text(con_id),
{
    let mut command: String = "[con_id=".to_owned();
    push_signed_decimal(&mut command, con_id);
    command.append("] focus");
    command
}

/// Whether sway rejected any of the commands.
pub fn any_rejected(results: &Vec<bool>) -> (rejected: bool)
    ensures
        rejected == results@.contains(true),
{
    let mut i: usize = 0;
    while i < results.len()
        invariant
            i <= results.len(),
            forall|j: int| 0 <= j < i ==> !results@[j],
        decreases results.len() - i,
    {
        if results[i] {
            assert(results@[i as int]);
            return true;
        }
        i += 1;
    }
    false
}

/// Starts to focus a window, once connecting to sway has succeeded or failed:
/// the command to run, or the error to print.
pub fn focus_window(con_id: i64, connection: Result<(), String>) -> (step: Result<String, String>)
    ensures
        match connection {
            Ok(()) => step matches Ok(command) && command@ == focus_text(con_id),
            Err(reason) => step matches Err(line) && line@ == "Connection error: "@ + reason@,
        },
{
    match connection {
        Ok(()) => Ok(focus_command(con_id)),
        Err(reason) => Err(joined("Connection error: ", reason.as_str())),
    }
}

/// The error to print after a focus command, if any.
pub fn focus_window_reply(con_id: i64, reply: Reply) -> (error: Option<String>)
    ensures
        match reply {
            Reply::Failed(reason) => error matches Some(line) && line@ == "Preview focus error: "@
                + reason@,
            Reply::Answered(results) => if results@.contains(true) {
                error matches Some(line) && line@ == "Preview focus error for con_id="@
                    + signed_decimal(con_id as int)
            } else {
                error is None
            },
        },
{
    match reply {
        Reply::Failed(reason) => Some(joined("Preview focus error: ", reason.as_str())),
        Reply::Answered(results) => if any_rejected(&results) {
            let mut line: String = "Preview focus error for con_id=".to_owned();
            push_signed_decimal(&mut line, con_id);
            Some(line)
        } else {
            None
        },
    }
}

/// Starts to set up the bindings, once connecting to sway has succeeded or
/// failed. The key press comes first.
pub fn setup_bindings(pid: u32, connection: Result<(), String>) -> (step: SetupStep)
    ensures
        match connection {
            Ok(()) => step matches SetupStep::Run(Binding::Press, command) && command@
                == Binding::Press.bind_text(pid),
            Err(reason) => step matches SetupStep::Failed(error) && error@ == reason@,
        },
{
    match connection {
        Ok(()) => SetupStep::Run(Binding::Press, Binding::Press.bind_command(pid)),
        Err(reason) => SetupStep::Failed(reason),
    }
}

/// Goes on setting up the bindings after the reply to the command for
/// `binding`. A failed request ends the setup, and so does a rejected key
/// press. A rejected key release is worth a warning only.
pub fn setup_bindings_reply(pid: u32, binding: Binding, reply: Reply) -> (step: SetupStep)
    ensures
        match reply {
            Reply::Failed(reason) => step matches SetupStep::Failed(error) && error@ == reason@,
            Reply::Answered(results) => match binding {
                Binding::Press => if results@.contains(true) {
                    step matches SetupStep::Failed(error) && error@ == "Failed to bind Alt+Tab"@
                } else {
                    step matches SetupStep::Run(Binding::Release, command) && command@
                        == Binding::Release.bind_text(pid)
                },
                Binding::Release => if results@.contains(true) {
                    step matches SetupStep::Done(Some(warning)) && warning@
                        == "Warning: failed to bind --release Alt+Tab"@
                } else {
                    step matches SetupStep::Done(None)
                },
            },
        },
{
    match reply {
        Reply::Failed(reason) => SetupStep::Failed(reason),
        Reply::Answered(results) => {
            let rejected: bool = any_rejected(&results);
            match binding {
                Binding::Press => if rejected {
                    SetupStep::Failed("Failed to bind Alt+Tab".to_owned())
                } else {
                    SetupStep::Run(Binding::Release, Binding::Release.bind_command(pid))
                },
                Binding::Release => if rejected {
                    SetupStep::Done(Some("Warning: failed to bind --release Alt+Tab".to_owned()))
                } else {
                    SetupStep::Done(None)
                },
            }
        },
    }
}

/// Starts to remove the bindings, once connecting to sway has succeeded or
/// failed: the commands to run, one after the other, or the warning to print.
pub fn remove_bindings(connection: Result<(), String>) -> (step: Result<Vec<String>, String>)
    ensures
        match connection {
            Ok(()) => step matches Ok(commands) && {
                &&& commands@.len() == 2
                &&& commands@[0]@ == Binding::Press.unbind_text()
                &&& commands@[1]@ == Binding::Release.unbind_text()
            },
            Err(reason) => step matches Err(warning) && warning@
                == "Warning: failed to connect for unbinding: "@ + reason@,
        },
{
    match connection {
        Ok(()) => {
            let mut commands: Vec<String> = Vec::new();
            commands.push(Binding::Press.unbind_command());
            commands.push(Binding::Release.unbind_command());
            Ok(commands)
        },
        Err(reason) => Err(joined("Warning: failed to connect for unbinding: ", reason.as_str())),
    }
}

/// The warning to print after an unbind command, if any.
pub fn remove_bindings_reply(command: &str, reply: Reply) -> (warning: Option<String>)
    ensures
        match reply {
            Reply::Failed(reason) => warning matches Some(line) && line@
                == "Warning: unbind command failed: "@ + reason@,
            Reply::Answered(results) => if results@.contains(true) {
                warning matches Some(line) && line@ == "Warning: failed to unbind: "@ + command@
            } else {
                warning is None
            },
        },
{
    match reply {
        Reply::Failed(reason) => Some(joined("Warning: unbind command failed: ", reason.as_str())),
        Reply::Answered(results) => if any_rejected(&results) {
            Some(joined("Warning: failed to unbind: ", command))
        } else {
            None
        },
    }
}

/// A focus command names one window: different windows have different commands.
pub proof fn law_focus_command_names_one_window(a: i64, b: i64)
    requires
        focus_text(a) == focus_text(b),
    ensures
        a == b,
{
    let x = signed_decimal(a as int);
    let y = signed_decimal(b as int);
    let before = "[con_id="@;
    let after = "] focus"@;
    assert(focus_text(a).len() == before.len() + x.len() + after.len());
    assert(focus_text(b).len() == before.len() + y.len() + after.len());
    assert(focus_text(a).subrange(before.len() as int, (before.len() + x.len()) as int) =~= x);
    assert(focus_text(b).subrange(before.len() as int, (before.len() + y.len()) as int) =~= y);
    law_signed_decimal_is_unambiguous(a as int, b as int);
}

/// What `unbindsym` takes out is the key event that `bindsym` put in: past
/// their first words, the two commands of a binding start with the same key.
pub proof fn law_unbinding_undoes_binding(binding: Binding, pid: u32)
    ensures
        binding.bind_text(pid).take(8) == "bindsym "@,
        binding.unbind_text().take(10) == "unbindsym "@,
        binding.unbind_text().skip(10) == binding.key(),
        binding.bind_text(pid).skip(8).take(binding.key().len() as int) == binding.key(),
{
    reveal_strlit("bindsym ");
    reveal_strlit("unbindsym ");
    assert(binding.bind_text(pid).take(8) =~= "bindsym "@);
    assert(binding.unbind_text().take(10) =~= "unbindsym "@);
    assert(binding.unbind_text().skip(10) =~= binding.key());
    assert(binding.bind_text(pid).skip(8).take(binding.key().len() as int) =~= binding.key());
}

/// A bind command names the process: what follows its last space is made of
/// digits and, read as a number, is the pid.
pub proof fn law_bind_command_names_process(binding: Binding, pid: u32)
    ensures
        ({
            let text = binding.bind_text(pid);
            exists|k: int|
                #![trigger text.skip(k + 1)]
                {
                    &&& 0 <= k < text.len() - 1
                    &&& text[k] == ' '
                    &&& forall|j: int|
                        k < j < text.len() ==> 48 <= (#[trigger] text[j]) as int <= 57
                    &&& decimal_value(text.skip(k + 1)) == pid
                }
        }),
{
    reveal_strlit(" ");
    let text = binding.bind_text(pid);
    let number = decimal(pid as nat);
    law_decimal_is_canonical(pid as nat);
    let k = text.len() - number.len() - 1;
    assert(text.skip(k + 1) =~= number);
    assert(text[k] == ' ');
    assert forall|j: int| k < j < text.len() implies 48 <= (#[trigger] text[j]) as int <= 57 by {
        assert(text[j] == number[j - k - 1]);
    }
}

/// Different processes have different bind commands.
pub proof fn law_bind_commands_tell_processes_apart(binding: Binding, p: u32, q: u32)
    requires
        binding.bind_text(p) == binding.bind_text(q),
    ensures
        p == q,
{
    let x = decimal(p as nat);
    let y = decimal(q as nat);
    let text = binding.bind_text(p);
    let head = "bindsym "@ + binding.key() + " exec kill -"@ + binding.signal() + " "@;
    law_decimal_is_canonical(p as nat);
    law_decimal_is_canonical(q as nat);
    assert(text =~= head + x);
    assert(text =~= head + y);
    assert(text.skip(head.len() as int) =~= x);
    assert(text.skip(head.len() as int) =~= y);
}

/// The bind commands, but for the process they name.
pub proof fn law_bind_command_texts(pid: u32)
    ensures
        Binding::Press.bind_text(pid) == "bindsym Alt+Tab exec kill -USR1 "@ + decimal(pid as nat),
        Binding::Release.bind_text(pid) == "bindsym --release Alt+Tab exec kill -RTMIN "@
            + decimal(pid as nat),
        Binding::Press.unbind_text() == "unbindsym Alt+Tab"@,
        Binding::Release.unbind_text() == "unbindsym --release Alt+Tab"@,
{
    reveal_strlit("bindsym ");
    reveal_strlit("unbindsym ");
    reveal_strlit("Alt+Tab");
    reveal_strlit("--release Alt+Tab");
    reveal_strlit(" exec kill -");
    reveal_strlit("USR1");
    reveal_strlit("RTMIN");
    reveal_strlit(" ");
    reveal_strlit("bindsym Alt+Tab exec kill -USR1 ");
    reveal_strlit("bindsym --release Alt+Tab exec kill -RTMIN ");
    reveal_strlit("unbindsym Alt+Tab");
    reveal_strlit("unbindsym --release Alt+Tab");
    assert("bindsym "@ + "Alt+Tab"@ + " exec kill -"@ + "USR1"@ + " "@
        =~= "bindsym Alt+Tab exec kill -USR1 "@);
    assert("bindsym "@ + "--release Alt+Tab"@ + " exec kill -"@ + "RTMIN"@ + " "@
        =~= "bindsym --release Alt+Tab exec kill -RTMIN "@);
    assert(Binding::Press.bind_text(pid) =~= ("bindsym "@ + "Alt+Tab"@ + " exec kill -"@ + "USR1"@
        + " "@) + decimal(pid as nat));
    assert(Binding::Release.bind_text(pid) =~= ("bindsym "@ + "--release Alt+Tab"@
        + " exec kill -"@ + "RTMIN"@ + " "@) + decimal(pid as nat));
    assert(Binding::Press.unbind_text() =~= "unbindsym Alt+Tab"@);
    assert(Binding::Release.unbind_text() =~= "unbindsym --release Alt+Tab"@);
}

/// A focus command names the window: between its fixed first and last part
/// stands a number, which is the con_id.
pub proof fn law_focus_command_reads_back(con_id: i64)
    ensures
        focus_text(con_id).len() >= 15,
        focus_text(con_id).take(8) == "[con_id="@,
        focus_text(con_id).skip(focus_text(con_id).len() - 7) == "] focus"@,
        signed_value(focus_text(con_id).subrange(8, focus_text(con_id).len() - 7)) == con_id,
{
    reveal_strlit("[con_id=");
    reveal_strlit("] focus");
    let text = focus_text(con_id);
    law_signed_decimal_reads_back(con_id as int);
    assert(text.take(8) =~= "[con_id="@);
    assert(text.skip(text.len() - 7) =~= "] focus"@);
    assert(text.subrange(8, text.len() - 7) =~= signed_decimal(con_id as int));
}

} // verus!
