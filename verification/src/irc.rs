//! What the bot says to the chat server: the opening handshake, the
//! messages of a broadcast and the channels it joins.
use base64::Engine;
use vstd::prelude::*;
use vstd::string::*;
use crate::database::Store;
use crate::text::{chars_of, string_of_chars};

verus! {

/// The base64 form, in the standard alphabet with padding, of a text's
/// UTF-8 bytes.
pub uninterp spec fn base64_of_text(text: Seq<char>) -> Seq<char>;

/// Calls `base64::Engine::encode` on `base64::engine::general_purpose::STANDARD`
/// with the bytes of the text. Claimed: only that the answer depends on the
/// text alone. The call fails only where the encoded length overflows, which
/// the bytes of a text in memory cannot reach.
#[verifier::external_body]
pub(crate) fn base64_encode(text: &str) -> (r: String)
    ensures
        r@ == base64_of_text(text@),
{
    base64::engine::general_purpose::STANDARD.encode(text)
}

/// A command for the chat server.
#[derive(Debug, Clone, PartialEq, Eq)]
pub enum IrcCommand {
    /// Asks for a capability.
    CapReq(String),
    /// Ends the negotiation of capabilities.
    CapEnd,
    Pass(String),
    Nick(String),
    /// User name, mode and real name.
    User(String, String, String),
    /// One step of SASL authentication.
    Authenticate(String),
    Join(String),
}

/// A message for one channel or user.
#[derive(Debug, Clone, PartialEq, Eq)]
pub struct Outgoing {
    pub target: String,
    pub text: String,
}

/// What the bot was started with.
#[derive(Debug, Clone, PartialEq, Eq)]
pub struct HamVerBotConfig {
    pub command_prefix: String,
    pub nickname: String,
    pub password: String,
    pub channels: Vec<String>,
}

/// Why the configuration could not be loaded.
#[derive(Debug, Clone, PartialEq, Eq)]
pub struct ConfigError(pub String);

/// Puts the configuration together: the command prefix is `!` unless one is
/// set, and a password from the environment goes before the configured one.
pub fn load_config(
    command_prefix: Option<String>,
    nickname: String,
    environment_password: Option<String>,
    configured_password: String,
    channels: Vec<String>,
) -> (r: HamVerBotConfig)
    ensures
        r.command_prefix@ == (match command_prefix {
            Some(prefix) => prefix@,
            None => "!"@,
        }),
        r.nickname == nickname,
        r.password == (match environment_password {
            Some(password) => password,
            None => configured_password,
        }),
        r.channels == channels,
{
    HamVerBotConfig {
        command_prefix: match command_prefix {
            Some(prefix) => prefix,
            None => String::from_str("!"),
        },
        nickname,
        password: match environment_password {
            Some(password) => password,
            None => configured_password,
        },
        channels,
    }
}

/// The command behind the prefix, if the message begins with the prefix.
pub open spec fn command_behind(message: Seq<char>, prefix: Seq<char>) -> Option<Seq<char>> {
    if prefix.len() <= message.len() && message.take(prefix.len() as int) == prefix {
        Some(message.skip(prefix.len() as int))
    } else {
        None
    }
}

/// Takes the command prefix off a chat message; `None` for a message that is
/// not addressed to the bot.
pub fn strip_command_prefix(message: &str, prefix: &str) -> (r: Option<String>)
    ensures
        command_behind(message@, prefix@) == (match r {
            Some(command) => Some(command@),
            None => None::<Seq<char>>,
        }),
{
    let m = chars_of(message);
    let p = chars_of(prefix);
    if p.len() > m.len() {
        return None;
    }
    let mut i: usize = 0;
    while i < p.len()
        invariant
            i <= p@.len() <= m@.len(),
            m@ == message@,
            p@ == prefix@,
            forall|j: int| 0 <= j < i ==> m@[j] == p@[j],
        decreases p@.len() - i,
    {
        if m[i] != p[i] {
            proof {
                assert(m@.take(p@.len() as int)[i as int] != p@[i as int]);
            }
            return None;
        }
        i += 1;
    }
    proof {
        assert(m@.take(p@.len() as int) =~= p@);
        assert(m@.subrange(p@.len() as int, m@.len() as int) =~= m@.skip(p@.len() as int));
    }
    Some(string_of_chars(&m, p.len(), m.len()))
}

/// The real name the bot registers with.
pub open spec fn real_name() -> Seq<char> {
    "https://github.com/obviyus/HamVerBot"@
}

/// The commands that open a session: the request for SASL, then password,
/// nickname and user.
pub fn authenticate(nickname: &str, password: &str) -> (r: Vec<IrcCommand>)
    ensures
        r@.len() == 4,
        r@[0] matches IrcCommand::CapReq(capability) && capability@ == "sasl"@,
        r@[1] matches IrcCommand::Pass(p) && p@ == password@,
        r@[2] matches IrcCommand::Nick(n) && n@ == nickname@,
        r@[3] matches IrcCommand::User(user, mode, shown) && user@ == nickname@ && mode@ == "0"@
            && shown@ == real_name(),
{
    let mut commands: Vec<IrcCommand> = Vec::new();
    commands.push(IrcCommand::CapReq(String::from_str("sasl")));
    commands.push(IrcCommand::Pass(String::from_str(password)));
    commands.push(IrcCommand::Nick(String::from_str(nickname)));
    commands.push(
        IrcCommand::User(
            String::from_str(nickname),
            String::from_str("0"),
            String::from_str("https://github.com/obviyus/HamVerBot"),
        ),
    );
    commands
}

/// The text that SASL PLAIN encodes: the user twice, then the password, with
/// a zero character between them.
pub open spec fn sasl_plain(username: Seq<char>, password: Seq<char>) -> Seq<char> {
    username + seq!['\0'] + username + seq!['\0'] + password
}

/// The answer to the server's call for credentials: the encoded credentials,
/// then the end of the negotiation.
pub fn handle_authenticate(username: &str, password: &str) -> (r: Vec<IrcCommand>)
    ensures
        r@.len() == 2,
        r@[0] matches IrcCommand::Authenticate(encoded) && encoded@ == base64_of_text(
            sasl_plain(username@, password@),
        ),
        r@[1] == IrcCommand::CapEnd,
{
    let mut plain = String::from_str(username);
    plain.push('\0');
    plain.append(username);
    plain.push('\0');
    plain.append(password);
    proof {
        assert(plain@ =~= sasl_plain(username@, password@));
    }
    let mut commands: Vec<IrcCommand> = Vec::new();
    commands.push(IrcCommand::Authenticate(base64_encode(plain.as_str())));
    commands.push(IrcCommand::CapEnd);
    commands
}

/// The answer to a numeric reply of the server: the negotiation ends once
/// SASL has succeeded, and nothing is said to any other reply.
pub fn handle_response(sasl_succeeded: bool) -> (r: Vec<IrcCommand>)
    ensures
        sasl_succeeded ==> r@.len() == 1 && r@[0] == IrcCommand::CapEnd,
        !sasl_succeeded ==> r@.len() == 0,
{
    let mut commands: Vec<IrcCommand> = Vec::new();
    if sasl_succeeded {
        commands.push(IrcCommand::CapEnd);
    }
    commands
}

/// Whether `sent` is `text` once for every channel, in their order.
pub open spec fn is_broadcast(channels: Seq<String>, text: Seq<char>, sent: Seq<Outgoing>) -> bool {
    &&& sent.len() == channels.len()
    &&& forall|i: int|
        0 <= i < sent.len() ==> (#[trigger] sent[i]).target == channels[i] && sent[i].text@ == text
}

/// The messages that bring `message` to every channel the bot is in.
pub fn broadcast(message: &str, store: &Store) -> (r: Vec<Outgoing>)
    ensures
        is_broadcast(store.channels@, message@, r@),
{
    let mut sent: Vec<Outgoing> = Vec::new();
    let mut i: usize = 0;
    while i < store.channels.len()
        invariant
            i <= store.channels@.len(),
            sent@.len() == i,
            forall|j: int|
                0 <= j < i ==> (#[trigger] sent@[j]).target == store.channels@[j] && sent@[j].text@
                    == message@,
        decreases store.channels@.len() - i,
    {
        sent.push(Outgoing { target: store.channels[i].clone(), text: String::from_str(message) });
        i += 1;
    }
    sent
}

/// Joins a channel on invitation: the channel is kept, and the command to
/// join it is given.
pub fn join_channel(channel: &str, store: &mut Store) -> (r: IrcCommand)
    ensures
        r matches IrcCommand::Join(name) && name@ == channel@,
        final(store).channels@.len() == old(store).channels@.len() + 1,
        final(store).channels@.drop_last() == old(store).channels@,
        final(store).channels@.last()@ == channel@,
        final(store).events == old(store).events,
        final(store).results == old(store).results,
        final(store).drivers == old(store).drivers,
        final(store).alerts == old(store).alerts,
        final(store).driver_standings == old(store).driver_standings,
        final(store).constructor_standings == old(store).constructor_standings,
{
    store.channels.push(String::from_str(channel));
    proof {
        assert(final(store).channels@.drop_last() =~= old(store).channels@);
    }
    IrcCommand::Join(String::from_str(channel))
}

} // verus!
