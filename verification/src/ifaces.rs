//! Interface types of the external collaborators whose images the loader
//! transports: the services and applications themselves live outside this
//! crate, but the records and small pure helpers they expose are kept here
//! so that images and their tooling agree on them.

use vstd::prelude::*;
use vstd::string::StringExecFns;

verus! {

/// A chat network a user has stored: where to connect and under which name.
#[derive(Clone, Debug, PartialEq, Eq)]
pub struct Network {
    /// Display name of the network.
    pub name: String,
    /// Channel joined on connect.
    pub channel: String,
    /// Server host name.
    pub server: String,
    /// Nick used on the network.
    pub nickname: String,
}

/// Prefix under which stored networks are filed.
pub open spec fn network_key_prefix() -> Seq<char> {
    "user_networks"@
}

/// The storage key of a network: the fixed prefix followed by its name.
pub fn network_pddb_key(name: String) -> (r: String)
    ensures
        r@ == network_key_prefix() + name@,
{
    proof {
        reveal_strlit("user_networks");
    }
    let mut key: String = <String as StringExecFns>::from_str("user_networks");
    key.append(name.as_str());
    key
}

/// Whether a storage key files a network: it starts with the fixed prefix.
pub fn is_valid_network_key(key: &String) -> (r: bool)
    ensures
        r == (key@.len() >= network_key_prefix().len() && key@.subrange(
            0,
            network_key_prefix().len() as int,
        ) == network_key_prefix()),
{
    proof {
        reveal_strlit("user_networks");
    }
    let prefix = "user_networks";
    if key.as_str().unicode_len() < prefix.unicode_len() {
        return false;
    }
    let head = key.as_str().substring_char(0, prefix.unicode_len());
    let head_s: String = <String as StringExecFns>::from_str(head);
    let prefix_s: String = <String as StringExecFns>::from_str(prefix);
    let r = head_s == prefix_s;
    proof {
        if r {
            assert(key@.subrange(0, network_key_prefix().len() as int) == network_key_prefix());
        }
    }
    r
}

/// Errors of the block-device facade over the filesystem.
#[derive(Clone, Copy, Debug, PartialEq, Eq, Structural)]
pub enum FlashDriveError {
    /// The requested capacity is not a whole number of blocks.
    CapacityNotPageAligned,
}

/// Checks a block-device capacity the way the facade's constructor does.
pub fn check_drive_capacity(capacity: usize) -> (r: Result<(), FlashDriveError>)
    ensures
        r is Ok <==> capacity as int % 1024 == 0,
        r is Err ==> r == Err::<(), FlashDriveError>(FlashDriveError::CapacityNotPageAligned),
{
    if capacity % 1024 != 0 {
        Err(FlashDriveError::CapacityNotPageAligned)
    } else {
        Ok(())
    }
}

/// Ways a user-presence check can end without approval.
#[derive(Clone, Copy, Debug, PartialEq, Eq, Structural)]
pub enum UserPresenceError {
    /// The user explicitly declined the check.
    Declined,
    /// The user agent cancelled the check.
    Canceled,
    /// The check timed out.
    Timeout,
}

/// Outcome of a user-presence check.
pub type UserPresenceResult = Result<(), UserPresenceError>;

/// What an authenticator's user-presence backend must provide. Images that
/// carry one implement this against their own hardware.
pub trait UserPresence {
    /// Prepares a user-presence check; a call to `check_complete` must
    /// follow.
    fn check_init(&mut self);

    /// Waits until presence is confirmed or rejected, or until `timeout_ms`
    /// milliseconds have passed.
    fn wait_with_timeout(&mut self, timeout_ms: u64) -> UserPresenceResult;

    /// Finishes the check begun by `check_init`.
    fn check_complete(&mut self);
}

/// Errors of the application dispatcher.
#[derive(Clone, Copy, Debug, PartialEq, Eq, Structural)]
pub enum AppDispatchError {
    /// No application is registered under this index.
    IndexNotFound(usize),
}

/// Checks an application index against the registered count, the way the
/// dispatcher does before it loads anything.
pub fn app_index_in_range(index: usize, count: usize) -> (r: Result<(), AppDispatchError>)
    ensures
        r is Ok <==> index < count,
        r is Err ==> r == Err::<(), AppDispatchError>(AppDispatchError::IndexNotFound(index)),
{
    if index < count {
        Ok(())
    } else {
        Err(AppDispatchError::IndexNotFound(index))
    }
}

/// Witness that code runs on the main thread of the display service.
pub struct MainThreadToken(());

impl MainThreadToken {
    /// The display backend works from any thread, so the token is freely
    /// made.
    pub fn claim() -> (r: MainThreadToken) {
        MainThreadToken(())
    }
}

/// Joins whitespace-split tokens back into one line, single-spaced.
pub fn join_tokens(buf: &mut String, tokens: &Vec<String>)
    ensures
        final(buf)@ == old(buf)@ + spec_joined(tokens@),
{
    let mut i: usize = 0;
    while i < tokens.len()
        invariant
            i <= tokens@.len(),
            buf@ == old(buf)@ + spec_joined(tokens@.take(i as int)),
        decreases tokens@.len() - i,
    {
        proof {
            lemma_joined_step(tokens@, i as int);
            reveal_strlit(" ");
        }
        if i != 0 {
            buf.append(" ");
        }
        buf.append(tokens[i].as_str());
        i = i + 1;
    }
    proof {
        assert(tokens@.take(tokens@.len() as int) =~= tokens@);
    }
}

/// The single-spaced concatenation of the first tokens.
pub open spec fn spec_joined(tokens: Seq<String>) -> Seq<char>
    decreases tokens.len(),
{
    if tokens.len() == 0 {
        Seq::empty()
    } else if tokens.len() == 1 {
        tokens[0]@
    } else {
        spec_joined(tokens.take(tokens.len() - 1)) + " "@ + tokens[tokens.len() - 1]@
    }
}

/// Joining one more token appends a space and the token.
proof fn lemma_joined_step(tokens: Seq<String>, i: int)
    requires
        0 <= i < tokens.len(),
    ensures
        i == 0 ==> spec_joined(tokens.take(1)) == tokens[0]@,
        i > 0 ==> spec_joined(tokens.take(i + 1)) == spec_joined(tokens.take(i)) + " "@
            + tokens[i]@,
{
    if i == 0 {
        assert(tokens.take(1)[0] == tokens[0]);
    } else {
        let t = tokens.take(i + 1);
        assert(t.len() == i + 1);
        assert(t.take(t.len() - 1) =~= tokens.take(i));
        assert(t[t.len() - 1] == tokens[i]);
    }
}

} // verus!
