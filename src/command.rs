//! Outgoing commands: `#<address><opcode><parameter?><modifiers?>\r`.
use vstd::prelude::*;

use vstd::utf8::encode_utf8;

use crate::text::{decimal, digit_char, push_decimal, push_signed_decimal, signed_decimal};

verus! {

/// A qualifier appended to a motion command, each with its own mnemonic.
#[derive(Clone, Copy, Debug, PartialEq, Eq, Structural)]
pub enum CommandModifier {
    /// Speed of the motion (`S`).
    Speed(u32),
    /// Speed of the motion in tenths of a degree per second (`SD`).
    SpeedDegrees(u32),
    /// Duration of the motion in milliseconds (`T`).
    Timed(u32),
    /// Current limit after which the servo holds (`CH`).
    CurrentHold(u32),
    /// Current limit after which the servo goes limp (`CL`).
    CurrentLimp(u32),
}

impl CommandModifier {
    /// The modifier's mnemonic on the wire.
    pub open spec fn mnemonic(self) -> Seq<char> {
        match self {
            CommandModifier::Speed(_) => seq!['S'],
            CommandModifier::SpeedDegrees(_) => seq!['S', 'D'],
            CommandModifier::Timed(_) => seq!['T'],
            CommandModifier::CurrentHold(_) => seq!['C', 'H'],
            CommandModifier::CurrentLimp(_) => seq!['C', 'L'],
        }
    }

    /// The modifier's integer argument.
    pub open spec fn argument(self) -> u32 {
        match self {
            CommandModifier::Speed(v) => v,
            CommandModifier::SpeedDegrees(v) => v,
            CommandModifier::Timed(v) => v,
            CommandModifier::CurrentHold(v) => v,
            CommandModifier::CurrentLimp(v) => v,
        }
    }

    /// The modifier as it appears in a command: `<mnemonic><integer>`.
    pub open spec fn text(self) -> Seq<char> {
        self.mnemonic() + decimal(self.argument() as nat)
    }

    fn write_to(&self, out: &mut String)
        ensures
            final(out)@ == old(out)@ + self.text(),
    {
        proof {
            reveal_strlit("S");
            reveal_strlit("SD");
            reveal_strlit("T");
            reveal_strlit("CH");
            reveal_strlit("CL");
        }
        let argument = match self {
            CommandModifier::Speed(v) => {
                out.append("S");
                *v
            },
            CommandModifier::SpeedDegrees(v) => {
                out.append("SD");
                *v
            },
            CommandModifier::Timed(v) => {
                out.append("T");
                *v
            },
            CommandModifier::CurrentHold(v) => {
                out.append("CH");
                *v
            },
            CommandModifier::CurrentLimp(v) => {
                out.append("CL");
                *v
            },
        };
        push_decimal(out, argument);
    }
}

/// The modifiers of a command, rendered one after another in the given order.
pub open spec fn modifiers_text(modifiers: Seq<CommandModifier>) -> Seq<char>
    decreases modifiers.len(),
{
    if modifiers.len() == 0 {
        Seq::empty()
    } else {
        modifiers_text(modifiers.drop_last()) + modifiers.last().text()
    }
}

/// The text of a command: start marker, address, opcode, the parameter if
/// any, the modifiers, and the delimiter.
pub open spec fn command_text(
    id: u8,
    opcode: Seq<char>,
    parameter: Option<i32>,
    modifiers: Seq<CommandModifier>,
) -> Seq<char> {
    seq!['#'] + decimal(id as nat) + opcode + match parameter {
        Some(v) => signed_decimal(v as int),
        None => Seq::empty(),
    } + modifiers_text(modifiers) + seq!['\r']
}

/// Text that can stand inside a frame: ASCII, without the delimiter.
pub open spec fn is_wire_text(s: Seq<char>) -> bool {
    forall|i: int| 0 <= i < s.len() ==> '\0' <= #[trigger] s[i] <= '\u{7f}' && s[i] != '\r'
}

proof fn lemma_wire_text_concat(a: Seq<char>, b: Seq<char>)
    requires
        is_wire_text(a),
        is_wire_text(b),
    ensures
        is_wire_text(a + b),
{
    assert forall|i: int| 0 <= i < (a + b).len() implies '\0' <= #[trigger] (a + b)[i] <= '\u{7f}'
        && (a + b)[i] != '\r' by {
        if i < a.len() {
            assert((a + b)[i] == a[i]);
        } else {
            assert((a + b)[i] == b[i - a.len()]);
        }
    }
}

proof fn lemma_decimal_is_wire_text(n: nat)
    ensures
        is_wire_text(decimal(n)),
    decreases n,
{
    if n >= 10 {
        lemma_decimal_is_wire_text(n / 10);
        lemma_wire_text_concat(decimal(n / 10), seq![digit_char(n % 10)]);
    }
}

proof fn lemma_modifiers_text_is_wire_text(modifiers: Seq<CommandModifier>)
    ensures
        is_wire_text(modifiers_text(modifiers)),
    decreases modifiers.len(),
{
    if modifiers.len() > 0 {
        let m = modifiers.last();
        lemma_modifiers_text_is_wire_text(modifiers.drop_last());
        lemma_decimal_is_wire_text(m.argument() as nat);
        lemma_wire_text_concat(m.mnemonic(), decimal(m.argument() as nat));
        lemma_wire_text_concat(modifiers_text(modifiers.drop_last()), m.text());
    }
}

/// A command whose opcode is wire text is wire text followed by one delimiter.
pub proof fn lemma_command_text_is_frame(
    id: u8,
    opcode: Seq<char>,
    parameter: Option<i32>,
    modifiers: Seq<CommandModifier>,
)
    requires
        is_wire_text(opcode),
    ensures
        command_text(id, opcode, parameter, modifiers).len() > 0,
        command_text(id, opcode, parameter, modifiers).last() == '\r',
        is_wire_text(command_text(id, opcode, parameter, modifiers).drop_last()),
{
    let p = match parameter {
        Some(v) => signed_decimal(v as int),
        None => Seq::empty(),
    };
    lemma_decimal_is_wire_text(id as nat);
    match parameter {
        Some(v) => {
            if v < 0 {
                lemma_decimal_is_wire_text((-v) as nat);
                lemma_wire_text_concat(seq!['-'], decimal((-v) as nat));
            } else {
                lemma_decimal_is_wire_text(v as nat);
            }
        },
        None => {},
    }
    lemma_modifiers_text_is_wire_text(modifiers);
    lemma_wire_text_concat(seq!['#'], decimal(id as nat));
    lemma_wire_text_concat(seq!['#'] + decimal(id as nat), opcode);
    lemma_wire_text_concat(seq!['#'] + decimal(id as nat) + opcode, p);
    let head = seq!['#'] + decimal(id as nat) + opcode + p + modifiers_text(modifiers);
    lemma_wire_text_concat(seq!['#'] + decimal(id as nat) + opcode + p, modifiers_text(modifiers));
    assert(command_text(id, opcode, parameter, modifiers) == head + seq!['\r']);
    assert((head + seq!['\r']).drop_last() =~= head);
}

/// One outgoing command, rendered once at construction.
#[derive(PartialEq, Clone, Debug)]
pub struct LssCommand {
    message: String,
}

impl View for LssCommand {
    type V = Seq<char>;

    closed spec fn view(&self) -> Seq<char> {
        self.message@
    }
}

/// Starts a command: the start marker, the address and the opcode.
fn command_head(id: u8, cmd: &str) -> (r: String)
    ensures
        r@ == seq!['#'] + decimal(id as nat) + cmd@,
{
    proof {
        reveal_strlit("#");
    }
    let mut message = String::new();
    message.append("#");
    push_decimal(&mut message, id as u32);
    message.append(cmd);
    message
}

/// Ends a command with the delimiter.
fn finish(message: &mut String)
    ensures
        final(message)@ == old(message)@ + seq!['\r'],
{
    proof {
        reveal_strlit("\r");
    }
    message.append("\r");
}

impl LssCommand {
    /// A command without a parameter: `#<id><cmd>\r`.
    pub fn simple(id: u8, cmd: &str) -> (r: LssCommand)
        ensures
            r@ == command_text(id, cmd@, None, Seq::empty()),
    {
        let mut message = command_head(id, cmd);
        finish(&mut message);
        LssCommand { message }
    }

    /// A command with a signed decimal parameter: `#<id><cmd><val>\r`.
    pub fn with_param(id: u8, cmd: &str, val: i32) -> (r: LssCommand)
        ensures
            r@ == command_text(id, cmd@, Some(val), Seq::empty()),
    {
        let mut message = command_head(id, cmd);
        push_signed_decimal(&mut message, val);
        finish(&mut message);
        LssCommand { message }
    }

    /// A command with a parameter and one modifier after it.
    pub fn with_param_modifier(id: u8, cmd: &str, val: i32, modifier: CommandModifier) -> (r:
        LssCommand)
        ensures
            r@ == command_text(id, cmd@, Some(val), seq![modifier]),
    {
        let mut message = command_head(id, cmd);
        push_signed_decimal(&mut message, val);
        modifier.write_to(&mut message);
        finish(&mut message);
        proof {
            assert(seq![modifier].drop_last() =~= Seq::<CommandModifier>::empty());
            assert(seq![modifier].last() == modifier);
            assert(modifiers_text(Seq::<CommandModifier>::empty()) =~= Seq::<char>::empty());
            assert(modifiers_text(seq![modifier]) =~= Seq::<char>::empty() + modifier.text());
        }
        LssCommand { message }
    }

    /// A command with a parameter and modifiers after it, in the given order.
    pub fn with_param_modifiers(id: u8, cmd: &str, val: i32, modifiers: &[CommandModifier]) -> (r:
        LssCommand)
        ensures
            r@ == command_text(id, cmd@, Some(val), modifiers@),
    {
        let mut message = command_head(id, cmd);
        push_signed_decimal(&mut message, val);
        let ghost start = message@;
        let mut i: usize = 0;
        while i < modifiers.len()
            invariant
                0 <= i <= modifiers.len(),
                message@ == start + modifiers_text(modifiers@.take(i as int)),
            decreases modifiers.len() - i,
        {
            modifiers[i].write_to(&mut message);
            proof {
                assert(modifiers@.take(i + 1).drop_last() =~= modifiers@.take(i as int));
            }
            i = i + 1;
        }
        assert(modifiers@.take(modifiers.len() as int) =~= modifiers@);
        finish(&mut message);
        LssCommand { message }
    }

    /// The command's bytes on the wire: the UTF-8 encoding of its text.
    pub fn as_bytes(&self) -> (r: &[u8])
        ensures
            r@ == encode_utf8(self@),
    {
        self.message.as_str().as_bytes()
    }

    pub fn as_str(&self) -> (r: &str)
        ensures
            r@ == self@,
    {
        self.message.as_str()
    }
}

} // verus!
