//! The codes of the milter protocol.
use vstd::prelude::*;

verus! {

/// The commands of a milter client.
#[derive(Debug, Clone, Copy, PartialEq, Eq, Structural)]
pub enum MilterCommand {
    /// The message is given up.
    Abort,
    /// A piece of the message body.
    Body,
    /// A mail client has connected.
    Connect,
    /// Macros for a later command.
    Data,
    /// The end of the header or, once a body has come, of the body.
    Eoh,
    /// The mail client has said its name.
    HeLO,
    /// The session ends, the connection stays.
    QuitNc,
    /// A header field.
    Header,
    /// The sender of the message.
    Mail,
    /// The mark behind the last header field.
    EndHeader,
    /// The options that the client offers.
    OptNeg,
    /// The session ends.
    Quit,
    /// A recipient of the message.
    Rcpt,
    /// The message is about to come.
    DataStart,
    /// An SMTP command that the client does not know.
    Unknown,
}

/// The command that a byte stands for.
pub open spec fn command_of(code: u8) -> Option<MilterCommand> {
    match code {
        0x41 => Some(MilterCommand::Abort),
        0x42 => Some(MilterCommand::Body),
        0x43 => Some(MilterCommand::Connect),
        0x44 => Some(MilterCommand::Data),
        0x45 => Some(MilterCommand::Eoh),
        0x48 => Some(MilterCommand::HeLO),
        0x4B => Some(MilterCommand::QuitNc),
        0x4C => Some(MilterCommand::Header),
        0x4D => Some(MilterCommand::Mail),
        0x4E => Some(MilterCommand::EndHeader),
        0x4F => Some(MilterCommand::OptNeg),
        0x51 => Some(MilterCommand::Quit),
        0x52 => Some(MilterCommand::Rcpt),
        0x54 => Some(MilterCommand::DataStart),
        0x55 => Some(MilterCommand::Unknown),
        _ => None,
    }
}

/// The name of a command.
pub open spec fn command_name(command: MilterCommand) -> Seq<char> {
    match command {
        MilterCommand::Abort => "SMFIC_ABORT"@,
        MilterCommand::Body => "SMFIC_BODY"@,
        MilterCommand::Connect => "SMFIC_CONNECT"@,
        MilterCommand::Data => "SMFIC_MACRO"@,
        MilterCommand::Eoh => "SMFIC_EOH"@,
        MilterCommand::HeLO => "SMFIC_HELO"@,
        MilterCommand::QuitNc => "SMFIC_QUIT_NC"@,
        MilterCommand::Header => "SMFIC_HEADER"@,
        MilterCommand::Mail => "SMFIC_MAIL"@,
        MilterCommand::EndHeader => "SMFIC_END_HEADER"@,
        MilterCommand::OptNeg => "SMFIC_OPTNEG"@,
        MilterCommand::Quit => "SMFIC_QUIT"@,
        MilterCommand::Rcpt => "SMFIC_RCPT"@,
        MilterCommand::DataStart => "SMFIC_DATA"@,
        MilterCommand::Unknown => "SMFIC_UNKNOWN"@,
    }
}

impl MilterCommand {
    /// The command that a byte stands for.
    pub fn from_u8(code: u8) -> (r: Option<MilterCommand>)
        ensures
            r == command_of(code),
    {
        match code {
            0x41 => Some(MilterCommand::Abort),
            0x42 => Some(MilterCommand::Body),
            0x43 => Some(MilterCommand::Connect),
            0x44 => Some(MilterCommand::Data),
            0x45 => Some(MilterCommand::Eoh),
            0x48 => Some(MilterCommand::HeLO),
            0x4B => Some(MilterCommand::QuitNc),
            0x4C => Some(MilterCommand::Header),
            0x4D => Some(MilterCommand::Mail),
            0x4E => Some(MilterCommand::EndHeader),
            0x4F => Some(MilterCommand::OptNeg),
            0x51 => Some(MilterCommand::Quit),
            0x52 => Some(MilterCommand::Rcpt),
            0x54 => Some(MilterCommand::DataStart),
            0x55 => Some(MilterCommand::Unknown),
            _ => None,
        }
    }

    /// The name of the command.
    pub fn as_str(&self) -> (r: &'static str)
        ensures
            r@ == command_name(*self),
    {
        match self {
            MilterCommand::Abort => "SMFIC_ABORT",
            MilterCommand::Body => "SMFIC_BODY",
            MilterCommand::Connect => "SMFIC_CONNECT",
            MilterCommand::Data => "SMFIC_MACRO",
            MilterCommand::Eoh => "SMFIC_EOH",
            MilterCommand::HeLO => "SMFIC_HELO",
            MilterCommand::QuitNc => "SMFIC_QUIT_NC",
            MilterCommand::Header => "SMFIC_HEADER",
            MilterCommand::Mail => "SMFIC_MAIL",
            MilterCommand::EndHeader => "SMFIC_END_HEADER",
            MilterCommand::OptNeg => "SMFIC_OPTNEG",
            MilterCommand::Quit => "SMFIC_QUIT",
            MilterCommand::Rcpt => "SMFIC_RCPT",
            MilterCommand::DataStart => "SMFIC_DATA",
            MilterCommand::Unknown => "SMFIC_UNKNOWN",
        }
    }

    /// The name of the command, where the end of the body is told from the end of the
    /// header.
    pub fn as_str_eoh(&self, is_body_eob: bool) -> (r: &'static str)
        ensures
            *self == MilterCommand::Eoh && is_body_eob ==> r@ == "SMFIC_BODYEOB"@,
            *self != MilterCommand::Eoh || !is_body_eob ==> r@ == command_name(*self),
    {
        match self {
            MilterCommand::Eoh => if is_body_eob {
                "SMFIC_BODYEOB"
            } else {
                self.as_str()
            },
            _ => self.as_str(),
        }
    }
}

/// The macros of a mail session, and the commands that they belong to.
#[derive(Debug, Clone, Copy, PartialEq, Eq, Structural)]
pub enum MilterMacro {
    /// Macros of the connection.
    Connect,
    /// Macros of the end of the body.
    Eob,
    /// Macros of the client's name.
    Helo,
    /// Macros of the start of the header.
    Soh,
    /// Macros of the sender.
    Mail,
    /// Macros of the end of the header.
    Eoh,
    /// Macros of a recipient.
    Rcpt,
    /// Macros of the start of the message.
    Data,
    /// The host and the address of the mail client.
    Space,
    /// The queue id of the message.
    QueueId,
    /// The name of this host.
    HostName,
    /// A macro with a name of its own, in braces.
    Vender,
    /// Any other macro.
    Unknown(u8),
}

/// The macro that a byte stands for.
pub open spec fn macro_of(code: u8) -> MilterMacro {
    match code {
        0x43 => MilterMacro::Connect,
        0x45 => MilterMacro::Eob,
        0x48 => MilterMacro::Helo,
        0x4C => MilterMacro::Soh,
        0x4D => MilterMacro::Mail,
        0x4E => MilterMacro::Eoh,
        0x52 => MilterMacro::Rcpt,
        0x54 => MilterMacro::Data,
        0x5F => MilterMacro::Space,
        0x69 => MilterMacro::QueueId,
        0x6A => MilterMacro::HostName,
        0x7B => MilterMacro::Vender,
        _ => MilterMacro::Unknown(code),
    }
}

/// The name under which a macro is kept.
pub open spec fn macro_label(m: MilterMacro) -> Seq<char> {
    match m {
        MilterMacro::Connect => "MACRO_Connect"@,
        MilterMacro::Eob => "MACRO_Eob"@,
        MilterMacro::Helo => "MACRO_Helo"@,
        MilterMacro::Soh => "MACRO_Soh"@,
        MilterMacro::Mail => "MACRO_Mail"@,
        MilterMacro::Eoh => "MACRO_Eoh"@,
        MilterMacro::Rcpt => "MACRO_Rcpt"@,
        MilterMacro::Data => "MACRO_Data"@,
        MilterMacro::Space => "MACRO_Space"@,
        MilterMacro::QueueId => "i"@,
        MilterMacro::HostName => "j"@,
        MilterMacro::Vender => "MACRO_Vender"@,
        MilterMacro::Unknown(_) => "Unknown"@,
    }
}

impl MilterMacro {
    /// The macro that a byte stands for.
    pub fn from_u8(code: u8) -> (r: MilterMacro)
        ensures
            r == macro_of(code),
    {
        match code {
            0x43 => MilterMacro::Connect,
            0x45 => MilterMacro::Eob,
            0x48 => MilterMacro::Helo,
            0x4C => MilterMacro::Soh,
            0x4D => MilterMacro::Mail,
            0x4E => MilterMacro::Eoh,
            0x52 => MilterMacro::Rcpt,
            0x54 => MilterMacro::Data,
            0x5F => MilterMacro::Space,
            0x69 => MilterMacro::QueueId,
            0x6A => MilterMacro::HostName,
            0x7B => MilterMacro::Vender,
            _ => MilterMacro::Unknown(code),
        }
    }

    /// The name under which the macro is kept.
    pub fn as_str(&self) -> (r: &'static str)
        ensures
            r@ == macro_label(*self),
    {
        match self {
            MilterMacro::Connect => "MACRO_Connect",
            MilterMacro::Eob => "MACRO_Eob",
            MilterMacro::Helo => "MACRO_Helo",
            MilterMacro::Soh => "MACRO_Soh",
            MilterMacro::Mail => "MACRO_Mail",
            MilterMacro::Eoh => "MACRO_Eoh",
            MilterMacro::Rcpt => "MACRO_Rcpt",
            MilterMacro::Data => "MACRO_Data",
            MilterMacro::Space => "MACRO_Space",
            MilterMacro::QueueId => "i",
            MilterMacro::HostName => "j",
            MilterMacro::Vender => "MACRO_Vender",
            MilterMacro::Unknown(_) => "Unknown",
        }
    }
}

/// A command is the one whose letter the protocol gives it, and bytes that are no letters of
/// commands are none.
pub proof fn law_commands_have_their_letters(code: u8)
    ensures
        command_of(code) == Some(MilterCommand::Abort) <==> code as char == 'A',
        command_of(code) == Some(MilterCommand::Body) <==> code as char == 'B',
        command_of(code) == Some(MilterCommand::Connect) <==> code as char == 'C',
        command_of(code) == Some(MilterCommand::Data) <==> code as char == 'D',
        command_of(code) == Some(MilterCommand::Eoh) <==> code as char == 'E',
        command_of(code) == Some(MilterCommand::HeLO) <==> code as char == 'H',
        command_of(code) == Some(MilterCommand::QuitNc) <==> code as char == 'K',
        command_of(code) == Some(MilterCommand::Header) <==> code as char == 'L',
        command_of(code) == Some(MilterCommand::Mail) <==> code as char == 'M',
        command_of(code) == Some(MilterCommand::EndHeader) <==> code as char == 'N',
        command_of(code) == Some(MilterCommand::OptNeg) <==> code as char == 'O',
        command_of(code) == Some(MilterCommand::Quit) <==> code as char == 'Q',
        command_of(code) == Some(MilterCommand::Rcpt) <==> code as char == 'R',
        command_of(code) == Some(MilterCommand::DataStart) <==> code as char == 'T',
        command_of(code) == Some(MilterCommand::Unknown) <==> code as char == 'U',
{
}

/// A macro is the one whose letter the protocol gives it: the underscore for the client, the
/// letter i for the queue id, the letter j for this host.
pub proof fn law_macros_have_their_letters(code: u8)
    ensures
        macro_of(code) == MilterMacro::Space <==> code as char == '_',
        macro_of(code) == MilterMacro::QueueId <==> code as char == 'i',
        macro_of(code) == MilterMacro::HostName <==> code as char == 'j',
        macro_of(code) == MilterMacro::Vender <==> code as char == '{',
        macro_of(code) == MilterMacro::Soh <==> code as char == 'L',
        macro_of(code) == MilterMacro::Connect <==> code as char == 'C',
        macro_of(code) == MilterMacro::Eob <==> code as char == 'E',
        macro_of(code) == MilterMacro::Helo <==> code as char == 'H',
        macro_of(code) == MilterMacro::Mail <==> code as char == 'M',
        macro_of(code) == MilterMacro::Eoh <==> code as char == 'N',
        macro_of(code) == MilterMacro::Rcpt <==> code as char == 'R',
        macro_of(code) == MilterMacro::Data <==> code as char == 'T',
        macro_label(MilterMacro::QueueId) == "i"@,
        macro_label(MilterMacro::HostName) == "j"@,
        macro_label(MilterMacro::Space) == "MACRO_Space"@,
        macro_label(MilterMacro::Vender) == "MACRO_Vender"@,
        macro_label(MilterMacro::Unknown(code)) == "Unknown"@,
{
}

} // verus!
