use vstd::prelude::*;

use crate::bytes::{byte_seqs, bytes_equal, join_bytes, split_bytes, split_on};
use crate::server::registration::SEPARATOR;

verus! {

/// The byte that ends a line of the login file.
pub const NEW_LINE: u8 = 0x0A;

/// The byte that a line may carry before its end, which is not part of the line.
pub const CARRIAGE_RETURN: u8 = 0x0D;

/// The credentials of a registered client: its identifier, username and password.
#[derive(Debug)]
pub struct Credentials {
    pub client_id: Vec<u8>,
    pub username: Vec<u8>,
    pub password: Vec<u8>,
}

/// The value of [`Credentials`].
pub type CredentialsModel = (Seq<u8>, Seq<u8>, Seq<u8>);

impl View for Credentials {
    type V = CredentialsModel;

    open spec fn view(&self) -> CredentialsModel {
        (self.client_id@, self.username@, self.password@)
    }
}

/// The registered clients, in the order they were registered; a later registration of an
/// identifier overrides an earlier one.
#[derive(Debug)]
pub struct LoginRegistry {
    pub entries: Vec<Credentials>,
}

/// The values of credentials.
pub open spec fn credentials_view(entries: Seq<Credentials>) -> Seq<CredentialsModel> {
    entries.map_values(|c: Credentials| c@)
}

impl View for LoginRegistry {
    type V = Seq<CredentialsModel>;

    open spec fn view(&self) -> Seq<CredentialsModel> {
        credentials_view(self.entries@)
    }
}

/// The username and password under which a client is registered: those of its last
/// registration, if any.
pub open spec fn registered_login(entries: Seq<CredentialsModel>, client_id: Seq<u8>) -> Option<(Seq<u8>, Seq<u8>)>
    decreases entries.len(),
{
    if entries.len() == 0 {
        None
    } else if entries.last().0 == client_id {
        Some((entries.last().1, entries.last().2))
    } else {
        registered_login(entries.drop_last(), client_id)
    }
}

/// Whether a client is registered with these credentials.
pub open spec fn authenticates(entries: Seq<CredentialsModel>, c: CredentialsModel) -> bool {
    registered_login(entries, c.0) == Some((c.1, c.2))
}

/// The bytes of a line, without the carriage returns in it.
pub open spec fn without_carriage_returns(line: Seq<u8>) -> Seq<u8>
    decreases line.len(),
{
    if line.len() == 0 {
        Seq::<u8>::empty()
    } else if line.last() == CARRIAGE_RETURN {
        without_carriage_returns(line.drop_last())
    } else {
        without_carriage_returns(line.drop_last()).push(line.last())
    }
}

/// The credentials that lines of the login file give: each line, without its carriage
/// returns, split at `;`; a line of three fields registers a client, the others are skipped.
pub open spec fn login_entries(lines: Seq<Seq<u8>>) -> Seq<CredentialsModel>
    decreases lines.len(),
{
    if lines.len() == 0 {
        Seq::<CredentialsModel>::empty()
    } else {
        let fields = split_bytes(without_carriage_returns(lines.last()), SEPARATOR);
        if fields.len() == 3 {
            login_entries(lines.drop_last()).push((fields[0], fields[1], fields[2]))
        } else {
            login_entries(lines.drop_last())
        }
    }
}

/// The credentials that a login file holds, one client per line.
pub open spec fn login_file_entries(contents: Seq<u8>) -> Seq<CredentialsModel> {
    login_entries(split_bytes(contents, NEW_LINE))
}

/// The line of the login file that registers a client: `id;username;password` and the end of
/// the line.
pub open spec fn login_line(c: CredentialsModel) -> Seq<u8> {
    c.0 + seq![SEPARATOR] + c.1 + seq![SEPARATOR] + c.2 + seq![NEW_LINE]
}

/// The line without its carriage returns.
fn strip_carriage_returns(line: &[u8]) -> (stripped: Vec<u8>)
    ensures
        stripped@ == without_carriage_returns(line@),
{
    let mut stripped: Vec<u8> = Vec::new();
    let mut i: usize = 0;
    assert(line@.take(0) =~= Seq::<u8>::empty());
    while i < line.len()
        invariant
            i <= line.len(),
            stripped@ == without_carriage_returns(line@.take(i as int)),
        decreases line.len() - i,
    {
        assert(line@.take(i + 1).drop_last() =~= line@.take(i as int));
        assert(line@.take(i + 1).last() == line@[i as int]);
        if line[i] != CARRIAGE_RETURN {
            stripped.push(line[i]);
        }
        i = i + 1;
    }
    assert(line@.take(i as int) =~= line@);
    stripped
}

impl LoginRegistry {
    /// Reads the registered clients from the contents of the login file.
    pub fn from_login_file(contents: &[u8]) -> (registry: Self)
        ensures
            registry@ == login_file_entries(contents@),
    {
        let lines = split_on(contents, NEW_LINE);
        let ghost all = byte_seqs(lines@);
        let mut entries: Vec<Credentials> = Vec::new();
        let mut i: usize = 0;
        assert(all.take(0) =~= Seq::<Seq<u8>>::empty());
        while i < lines.len()
            invariant
                i <= lines.len(),
                all == byte_seqs(lines@),
                credentials_view(entries@) == login_entries(all.take(i as int)),
            decreases lines.len() - i,
        {
            assert(all.take(i + 1).drop_last() =~= all.take(i as int));
            assert(all.take(i + 1).last() == lines@[i as int]@);
            let line = strip_carriage_returns(lines[i].as_slice());
            let fields = split_on(line.as_slice(), SEPARATOR);
            let ghost field_seqs = byte_seqs(fields@);
            if fields.len() == 3 {
                assert(field_seqs[0] == fields@[0]@ && field_seqs[1] == fields@[1]@ && field_seqs[2] == fields@[2]@);
                let ghost before = credentials_view(entries@);
                let c = Credentials {
                    client_id: vstd::slice::slice_to_vec(fields[0].as_slice()),
                    username: vstd::slice::slice_to_vec(fields[1].as_slice()),
                    password: vstd::slice::slice_to_vec(fields[2].as_slice()),
                };
                entries.push(c);
                assert(credentials_view(entries@) =~= before.push((field_seqs[0], field_seqs[1], field_seqs[2])));
            }
            i = i + 1;
        }
        assert(all.take(i as int) =~= all);
        LoginRegistry { entries }
    }

    /// The username and password under which a client is registered.
    fn login_of(&self, client_id: &[u8]) -> (login: Option<(&Vec<u8>, &Vec<u8>)>)
        ensures
            match login {
                Some((u, p)) => registered_login(self@, client_id@) == Some((u@, p@)),
                None => registered_login(self@, client_id@) is None,
            },
    {
        let mut i: usize = self.entries.len();
        assert(self@.take(i as int) =~= self@);
        while i > 0
            invariant
                i <= self.entries.len(),
                registered_login(self@, client_id@) == registered_login(self@.take(i as int), client_id@),
            decreases i,
        {
            assert(self@.take(i as int).drop_last() =~= self@.take(i - 1));
            assert(self@.take(i as int).last() == self.entries@[i - 1]@);
            if bytes_equal(self.entries[i - 1].client_id.as_slice(), client_id) {
                return Some((&self.entries[i - 1].username, &self.entries[i - 1].password));
            }
            i = i - 1;
        }
        None
    }

    /// Whether the client is registered with these credentials.
    pub fn authenticate_client(&self, client_id: &[u8], username: &[u8], password: &[u8]) -> (ok: bool)
        ensures
            ok == authenticates(self@, (client_id@, username@, password@)),
    {
        match self.login_of(client_id) {
            Some((u, p)) => bytes_equal(u.as_slice(), username) && bytes_equal(p.as_slice(), password),
            None => false,
        }
    }

    /// Registers a client that is not yet registered with these credentials, and gives the
    /// line to add to the login file; a client already registered with them is left as it is,
    /// and `None` says so.
    pub fn register_client(&mut self, client_id: Vec<u8>, username: Vec<u8>, password: Vec<u8>) -> (line: Option<Vec<u8>>)
        ensures
            ({
                let c = (client_id@, username@, password@);
                if authenticates(old(self)@, c) {
                    line is None && final(self)@ == old(self)@
                } else {
                    line matches Some(l) && l@ == login_line(c) && final(self)@ == old(self)@.push(c)
                }
            }),
    {
        if self.authenticate_client(client_id.as_slice(), username.as_slice(), password.as_slice()) {
            return None;
        }
        let mut line = client_id.clone();
        line.push(SEPARATOR);
        line.extend_from_slice(username.as_slice());
        line.push(SEPARATOR);
        line.extend_from_slice(password.as_slice());
        line.push(NEW_LINE);
        let ghost c = (client_id@, username@, password@);
        assert(line@ =~= login_line(c));
        let ghost before = self@;
        self.entries.push(Credentials { client_id, username, password });
        assert(self@ =~= before.push(c));
        Some(line)
    }
}

/// A registration is kept: after it, the client authenticates with the credentials it was
/// registered with, and every other client is registered as before.
pub proof fn lemma_registration_authenticates(entries: Seq<CredentialsModel>, c: CredentialsModel, other: Seq<u8>)
    ensures
        authenticates(entries.push(c), c),
        other != c.0 ==> registered_login(entries.push(c), other) == registered_login(entries, other),
{
    assert(entries.push(c).drop_last() =~= entries);
}

/// A line without carriage returns is left as it is.
proof fn lemma_no_carriage_return(s: Seq<u8>)
    requires
        !s.contains(CARRIAGE_RETURN),
    ensures
        without_carriage_returns(s) == s,
    decreases s.len(),
{
    if s.len() > 0 {
        assert(!s.drop_last().contains(CARRIAGE_RETURN)) by {
            if s.drop_last().contains(CARRIAGE_RETURN) {
                let k = choose|k: int| 0 <= k < s.drop_last().len() && s.drop_last()[k] == CARRIAGE_RETURN;
                assert(s[k] == CARRIAGE_RETURN);
            }
        }
        lemma_no_carriage_return(s.drop_last());
        assert(s.last() != CARRIAGE_RETURN) by {
            assert(s[s.len() - 1] == s.last());
        }
        assert(s.drop_last().push(s.last()) =~= s);
    }
}

/// A byte that is in neither part is not in the two together.
proof fn lemma_concat_lacks(a: Seq<u8>, b: Seq<u8>, x: u8)
    requires
        !a.contains(x),
        !b.contains(x),
    ensures
        !(a + b).contains(x),
{
    if (a + b).contains(x) {
        let k = choose|k: int| 0 <= k < (a + b).len() && (a + b)[k] == x;
        if k < a.len() {
            assert(a[k] == x);
        } else {
            assert(b[k - a.len()] == x);
        }
    }
}

/// A registration written to the login file is read back: when the file is empty or ends with
/// a complete line, and the identifier, username and password hold no `;`, no end of line and
/// no carriage return, reading the file with the line of the registration appended gives the
/// clients it gave before, then that registration.
pub proof fn lemma_login_line_read_back(contents: Seq<u8>, c: CredentialsModel)
    requires
        contents.len() == 0 || contents.last() == NEW_LINE,
        !c.0.contains(SEPARATOR) && !c.1.contains(SEPARATOR) && !c.2.contains(SEPARATOR),
        !c.0.contains(NEW_LINE) && !c.1.contains(NEW_LINE) && !c.2.contains(NEW_LINE),
        !c.0.contains(CARRIAGE_RETURN) && !c.1.contains(CARRIAGE_RETURN) && !c.2.contains(CARRIAGE_RETURN),
    ensures
        login_file_entries(contents + login_line(c)) == login_file_entries(contents).push(c),
{
    let sep = seq![SEPARATOR];
    let body = c.0 + sep + c.1 + sep + c.2;
    assert(login_line(c) =~= body.push(NEW_LINE));
    assert(!sep.contains(NEW_LINE) && !sep.contains(CARRIAGE_RETURN)) by {
        if sep.contains(NEW_LINE) || sep.contains(CARRIAGE_RETURN) {
            assert(sep.len() == 1 && sep[0] == SEPARATOR);
        }
    }
    lemma_concat_lacks(c.0, sep, NEW_LINE);
    lemma_concat_lacks(c.0 + sep, c.1, NEW_LINE);
    lemma_concat_lacks(c.0 + sep + c.1, sep, NEW_LINE);
    lemma_concat_lacks(c.0 + sep + c.1 + sep, c.2, NEW_LINE);
    lemma_concat_lacks(c.0, sep, CARRIAGE_RETURN);
    lemma_concat_lacks(c.0 + sep, c.1, CARRIAGE_RETURN);
    lemma_concat_lacks(c.0 + sep + c.1, sep, CARRIAGE_RETURN);
    lemma_concat_lacks(c.0 + sep + c.1 + sep, c.2, CARRIAGE_RETURN);
    lemma_no_carriage_return(body);

    let fields = seq![c.0, c.1, c.2];
    assert(join_bytes(fields, SEPARATOR) =~= body) by {
        let f1 = fields.take(1);
        let f2 = fields.take(2);
        assert(f2.drop_last() =~= f1);
        assert(fields.drop_last() =~= f2);
        assert(join_bytes(f1, SEPARATOR) == c.0);
        assert(join_bytes(f2, SEPARATOR) == join_bytes(f1, SEPARATOR).push(SEPARATOR) + c.1);
        assert(join_bytes(fields, SEPARATOR) == join_bytes(f2, SEPARATOR).push(SEPARATOR) + c.2);
    }
    crate::bytes::lemma_split_join(fields, SEPARATOR);
    assert(split_bytes(body, SEPARATOR) == fields);

    let empty = Seq::<u8>::empty();
    assert(without_carriage_returns(empty) == empty);
    assert(split_bytes(empty, SEPARATOR) == seq![empty]);

    let pieces = split_bytes(contents, NEW_LINE);
    crate::bytes::lemma_split_bytes_shape(contents, NEW_LINE);
    if contents.len() > 0 {
        assert(pieces == split_bytes(contents.drop_last(), NEW_LINE).push(empty));
    }
    assert(pieces.last() == empty);
    crate::bytes::lemma_split_append_no_sep(contents, body, NEW_LINE);
    let with_body = pieces.update(pieces.len() - 1, body);
    assert(pieces.last() + body =~= body);
    assert(split_bytes(contents + body, NEW_LINE) == with_body);
    let full = contents + login_line(c);
    assert(full.drop_last() =~= contents + body);
    assert(full.last() == NEW_LINE);
    assert(split_bytes(full, NEW_LINE) == with_body.push(empty));
    assert(with_body.push(empty).drop_last() =~= with_body);
    assert(with_body.drop_last() =~= pieces.drop_last());
    assert(login_entries(pieces) == login_entries(pieces.drop_last()));
    assert(login_entries(with_body) == login_entries(pieces.drop_last()).push(c));
}

/// Which registration of a client counts: a client authenticates with credentials exactly when
/// some registration carries them, identifier, username and password alike, and no later
/// registration is of the same identifier.
pub proof fn lemma_authenticates_last_registration(entries: Seq<CredentialsModel>, c: CredentialsModel)
    ensures
        authenticates(entries, c) <==> exists|k: int|
            0 <= k < entries.len() && #[trigger] entries[k] == c && forall|j: int|
                k < j < entries.len() ==> (#[trigger] entries[j]).0 != c.0,
    decreases entries.len(),
{
    if entries.len() > 0 {
        let init = entries.drop_last();
        lemma_authenticates_last_registration(init, c);
        let last = entries.len() - 1;
        if entries.last().0 == c.0 {
            if authenticates(entries, c) {
                assert(entries[last] == c);
                assert(forall|j: int| last < j < entries.len() ==> (#[trigger] entries[j]).0 != c.0);
            }
            if exists|k: int| 0 <= k < entries.len() && #[trigger] entries[k] == c && forall|j: int|
                k < j < entries.len() ==> (#[trigger] entries[j]).0 != c.0 {
                let k = choose|k: int| 0 <= k < entries.len() && #[trigger] entries[k] == c && forall|j: int|
                    k < j < entries.len() ==> (#[trigger] entries[j]).0 != c.0;
                if k < last {
                    assert(entries[last].0 != c.0);
                }
                assert(entries[last] == c);
            }
        } else {
            if authenticates(entries, c) {
                assert(authenticates(init, c));
                let k = choose|k: int| 0 <= k < init.len() && #[trigger] init[k] == c && forall|j: int|
                    k < j < init.len() ==> (#[trigger] init[j]).0 != c.0;
                assert(entries[k] == c);
                assert forall|j: int| k < j < entries.len() implies (#[trigger] entries[j]).0 != c.0 by {
                    if j < last {
                        assert(entries[j] == init[j]);
                    }
                }
            }
            if exists|k: int| 0 <= k < entries.len() && #[trigger] entries[k] == c && forall|j: int|
                k < j < entries.len() ==> (#[trigger] entries[j]).0 != c.0 {
                let k = choose|k: int| 0 <= k < entries.len() && #[trigger] entries[k] == c && forall|j: int|
                    k < j < entries.len() ==> (#[trigger] entries[j]).0 != c.0;
                assert(k < last);
                assert(init[k] == c);
                assert forall|j: int| k < j < init.len() implies (#[trigger] init[j]).0 != c.0 by {
                    assert(init[j] == entries[j]);
                }
            }
        }
    }
}

/// Credentials that differ from those a client was last registered with do not authenticate
/// it: after registering `c`, the same identifier with another username or another password is
/// refused.
pub proof fn lemma_other_credentials_refused(entries: Seq<CredentialsModel>, c: CredentialsModel, other: CredentialsModel)
    requires
        other.0 == c.0,
        other.1 != c.1 || other.2 != c.2,
    ensures
        authenticates(entries.push(c), c),
        !authenticates(entries.push(c), other),
{
    assert(entries.push(c).drop_last() =~= entries);
}

} // verus!
