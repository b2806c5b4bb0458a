//! The registrar credentials: the login (token) and password (secret) of
//! one machine entry of a `.netrc` text.

use vstd::prelude::*;

verus! {

/// A machine entry of a `.netrc` text. `name` is `None` for the `default` entry.
#[derive(Clone, Debug)]
pub struct NetrcEntry {
    pub name: Option<String>,
    pub login: Option<String>,
    pub password: Option<String>,
}

/// The token and secret that authenticate each request to the registrar.
#[derive(Clone, Debug)]
pub struct Credentials {
    pub token: String,
    pub secret: String,
}

#[derive(Clone, Copy, Debug, PartialEq, Eq, Structural)]
pub enum CredentialError {
    /// The text is not in `.netrc` form.
    Parse,
    /// No entry names the machine.
    NoMachine,
    /// The entry of the machine has no login.
    NoToken,
    /// The entry of the machine has no password.
    NoSecret,
}

/// A machine entry as plain values: name, login, password.
pub type EntryV = (Option<Seq<char>>, Option<Seq<char>>, Option<Seq<char>>);

/// The machine entries of a `.netrc` text, in file order, as netrc_rs reads
/// them; `None` where it does not accept the text.
pub uninterp spec fn netrc_machines(text: Seq<char>) -> Option<Seq<EntryV>>;

pub open spec fn text_of(o: Option<String>) -> Option<Seq<char>> {
    match o {
        Some(s) => Some(s@),
        None => None,
    }
}

pub open spec fn entry_view(e: NetrcEntry) -> EntryV {
    (text_of(e.name), text_of(e.login), text_of(e.password))
}

/// Relies on `netrc_rs::Netrc::parse` with unknown entries refused: it returns
/// the machines of the text in file order or an error, and depends on the text
/// alone.
#[verifier::external_body]
fn parse_netrc(text: &str) -> (r: Option<Vec<NetrcEntry>>)
    ensures
        r is Some <==> netrc_machines(text@) is Some,
        r matches Some(v) ==> v@.map_values(|e: NetrcEntry| entry_view(e))
            == netrc_machines(text@)->Some_0,
{
    match netrc_rs::Netrc::parse(text, false) {
        Ok(n) => Some(
            n.machines.into_iter().map(
                |m| NetrcEntry { name: m.name, login: m.login, password: m.password },
            ).collect(),
        ),
        Err(_) => None,
    }
}

/// Index of the last entry of `ms` named `name`.
pub open spec fn last_named(ms: Seq<EntryV>, name: Seq<char>) -> Option<int>
    decreases ms.len(),
{
    if ms.len() == 0 {
        None
    } else if ms.last().0 == Some(name) {
        Some(ms.len() - 1)
    } else {
        last_named(ms.drop_last(), name)
    }
}

/// Token and secret of the last entry of `ms` named `name`, or why there are none.
pub open spec fn credentials_spec(ms: Seq<EntryV>, name: Seq<char>) -> Result<
    (Seq<char>, Seq<char>),
    CredentialError,
> {
    match last_named(ms, name) {
        None => Err(CredentialError::NoMachine),
        Some(i) => match (ms[i].1, ms[i].2) {
            (None, _) => Err(CredentialError::NoToken),
            (Some(_), None) => Err(CredentialError::NoSecret),
            (Some(t), Some(s)) => Ok((t, s)),
        },
    }
}

proof fn lemma_last_named_step(ms: Seq<EntryV>, name: Seq<char>, i: int)
    requires
        0 <= i < ms.len(),
        forall|k: int| i < k < ms.len() ==> (#[trigger] ms[k]).0 != Some(name),
    ensures
        last_named(ms.subrange(0, i + 1), name) == last_named(ms, name),
    decreases ms.len() - i,
{
    if i + 1 < ms.len() {
        lemma_last_named_step(ms, name, i + 1);
        let s = ms.subrange(0, i + 2);
        assert(s.drop_last() =~= ms.subrange(0, i + 1));
        assert(s.last() == ms[i + 1]);
    } else {
        assert(ms.subrange(0, i + 1) =~= ms);
    }
}

/// The credentials of the last entry of `entries` named `machine`.
pub fn find_credentials(entries: &Vec<NetrcEntry>, machine: &str) -> (r: Result<
    Credentials,
    CredentialError,
>)
    ensures
        ({
            let want = credentials_spec(entries@.map_values(|e: NetrcEntry| entry_view(e)), machine@);
            &&& r is Ok <==> want is Ok
            &&& r matches Ok(c) ==> want->Ok_0 == (c.token@, c.secret@)
            &&& r matches Err(e) ==> want == Err::<(Seq<char>, Seq<char>), CredentialError>(e)
        }),
{
    let ghost ms = entries@.map_values(|e: NetrcEntry| entry_view(e));
    let target = String::from_str(machine);
    let mut i: usize = entries.len();
    while i > 0
        invariant
            i <= entries.len(),
            ms == entries@.map_values(|e: NetrcEntry| entry_view(e)),
            target@ == machine@,
            forall|k: int| i <= k < entries.len() ==> (#[trigger] ms[k]).0 != Some(machine@),
        decreases i,
    {
        i = i - 1;
        let e = &entries[i];
        let hit = match &e.name {
            Some(n) => *n == target,
            None => false,
        };
        if hit {
            proof {
                assert(ms[i as int] == entry_view(*e));
                lemma_last_named_step(ms, machine@, i as int);
                assert(ms.subrange(0, i + 1).last() == ms[i as int]);
            }
            return match (&e.login, &e.password) {
                (None, _) => Err(CredentialError::NoToken),
                (Some(_), None) => Err(CredentialError::NoSecret),
                (Some(t), Some(s)) => Ok(Credentials { token: t.clone(), secret: s.clone() }),
            };
        }
        assert(ms[i as int] == entry_view(*e));
    }
    proof {
        if entries.len() > 0 {
            lemma_last_named_step(ms, machine@, 0);
            let s = ms.subrange(0, 1);
            assert(s.drop_last() =~= Seq::<EntryV>::empty());
            assert(s.last() == ms[0]);
            assert(last_named(s.drop_last(), machine@) is None);
        }
        assert(last_named(ms, machine@) is None);
    }
    Err(CredentialError::NoMachine)
}

/// The credentials of `machine` in the `.netrc` text `text`: those of its
/// last entry; `Parse` where the text is not in `.netrc` form.
pub fn credentials_from_netrc(text: &str, machine: &str) -> (r: Result<
    Credentials,
    CredentialError,
>)
    ensures
        r == Err::<Credentials, CredentialError>(CredentialError::Parse) <==> netrc_machines(
            text@,
        ) is None,
        netrc_machines(text@) matches Some(ms) ==> {
            let want = credentials_spec(ms, machine@);
            &&& r is Ok <==> want is Ok
            &&& r matches Ok(c) ==> want->Ok_0 == (c.token@, c.secret@)
            &&& r matches Err(e) ==> want == Err::<(Seq<char>, Seq<char>), CredentialError>(e)
        },
{
    match parse_netrc(text) {
        None => Err(CredentialError::Parse),
        Some(entries) => find_credentials(&entries, machine),
    }
}

} // verus!
