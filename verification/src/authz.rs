//! Who may log in.

use vstd::prelude::*;

use crate::outside::{is_key_char, is_key_text, key_blob, key_part, read_key_blob};
use crate::text::{
    chars_of, first_of, lemma_first_of, lemma_first_of_is, lemma_trimmed_keeps, lines, lines_of,
    texts, the_first_of_a_character_cuts, trim, trimmed,
};

verus! {

/// A line of an `authorized_keys` file that is no OpenSSH public key.
#[derive(Debug, Clone)]
pub struct AuthzError {
    pub line: String,
    pub cause: String,
}

/// An [`AuthzError`] with its texts as character sequences.
pub struct AuthzErrorView {
    pub line: Seq<char>,
    pub cause: Seq<char>,
}

impl View for AuthzError {
    type V = AuthzErrorView;

    open spec fn view(&self) -> AuthzErrorView {
        AuthzErrorView { line: self.line@, cause: self.cause@ }
    }
}

impl AuthzErrorView {
    /// What the user is told, with the cause behind it.
    pub open spec fn message(self) -> Seq<char> {
        "invalid authorized key line: "@ + self.line + ": "@ + self.cause
    }
}

impl AuthzError {
    /// What the user is told, with the cause behind it.
    pub fn message(&self) -> (out: String)
        ensures
            out@ == self@.message(),
    {
        "invalid authorized key line: ".to_string().concat(self.line.as_str()).concat(": ").concat(
            self.cause.as_str(),
        )
    }
}

/// The keys that may log in, or nobody's in particular.
#[derive(Debug, Clone)]
pub struct Authz {
    insecure_allow_none: bool,
    allowed_keys: Vec<Vec<u8>>,
}

/// An [`Authz`] as what it allows.
pub struct AuthzView {
    /// Whether anybody may log in, with any key or none.
    pub open_to_all: bool,
    /// The keys that may log in, each in the encoding of the SSH protocol.
    pub keys: Set<Seq<u8>>,
}

/// The bytes of each of some keys.
pub open spec fn blobs(keys: Seq<Vec<u8>>) -> Seq<Seq<u8>> {
    keys.map_values(|key: Vec<u8>| key@)
}

impl View for Authz {
    type V = AuthzView;

    closed spec fn view(&self) -> AuthzView {
        AuthzView {
            open_to_all: self.insecure_allow_none,
            keys: blobs(self.allowed_keys@).to_set(),
        }
    }
}

/// Tells whether two keys are the same bytes.
fn same_key(a: &[u8], b: &[u8]) -> (r: bool)
    ensures
        r == (a@ == b@),
{
    if a.len() != b.len() {
        return false;
    }
    let mut i: usize = 0;
    while i < a.len()
        invariant
            i <= a@.len(),
            a@.len() == b@.len(),
            forall|j: int| 0 <= j < i ==> a@[j] == b@[j],
        decreases a@.len() - i,
    {
        if a[i] != b[i] {
            return false;
        }
        i += 1;
    }
    assert(a@ =~= b@);
    true
}

/// A line that holds no key: an empty one, or a comment.
pub open spec fn holds_no_key(line: Seq<char>) -> bool {
    line.len() == 0 || line[0] == '#'
}

/// The keys after one more line, given how the line reads as a key.
pub open spec fn with_line(
    keys: Set<Seq<u8>>,
    line: Seq<char>,
    reading: Result<Seq<u8>, Seq<char>>,
) -> Result<Set<Seq<u8>>, AuthzErrorView> {
    match reading {
        Ok(key) => Ok(keys.insert(key)),
        Err(cause) => Err(AuthzErrorView { line, cause }),
    }
}

/// The keys that the lines of a file hold, whatever comments stand behind them,
/// or what is wrong with the first line that is neither a key nor a comment nor
/// empty.
pub open spec fn keys_in(ls: Seq<Seq<char>>) -> Result<Set<Seq<u8>>, AuthzErrorView>
    decreases ls.len(),
{
    if ls.len() == 0 {
        Ok(Set::empty())
    } else {
        match keys_in(ls.drop_last()) {
            Ok(keys) => {
                let line = trimmed(ls.last());
                if holds_no_key(line) {
                    Ok(keys)
                } else {
                    with_line(keys, line, key_blob(key_part(line)))
                }
            },
            Err(e) => Err(e),
        }
    }
}

/// How a line reads as a key, as sequences.
pub open spec fn reading_view(r: Result<Vec<u8>, String>) -> Result<Seq<u8>, Seq<char>> {
    match r {
        Ok(key) => Ok(key@),
        Err(cause) => Err(cause@),
    }
}

/// What is wrong with one line is wrong with the file.
proof fn lemma_keys_in_err(ls: Seq<Seq<char>>, n: int)
    requires
        0 <= n <= ls.len(),
        keys_in(ls.take(n)) is Err,
    ensures
        keys_in(ls) == keys_in(ls.take(n)),
    decreases ls.len() - n,
{
    if n < ls.len() {
        assert(ls.take(n + 1).drop_last() =~= ls.take(n));
        lemma_keys_in_err(ls, n + 1);
    } else {
        assert(ls.take(n) =~= ls);
    }
}

impl Authz {
    /// Everybody may log in.
    pub fn open_to_all() -> (out: Authz)
        ensures
            out@ == (AuthzView { open_to_all: true, keys: Set::empty() }),
    {
        let out = Authz { insecure_allow_none: true, allowed_keys: Vec::new() };
        assert(blobs(out.allowed_keys@).to_set() =~= Set::empty());
        out
    }

    /// Nobody may log in, until keys are added.
    pub fn closed() -> (out: Authz)
        ensures
            out@ == (AuthzView { open_to_all: false, keys: Set::empty() }),
    {
        let out = Authz { insecure_allow_none: false, allowed_keys: Vec::new() };
        assert(blobs(out.allowed_keys@).to_set() =~= Set::empty());
        out
    }

    /// The same rule once more.
    pub fn copy(&self) -> (out: Authz)
        ensures
            out@ == self@,
    {
        let mut allowed_keys: Vec<Vec<u8>> = Vec::new();
        let mut i: usize = 0;
        while i < self.allowed_keys.len()
            invariant
                i <= self.allowed_keys@.len(),
                blobs(allowed_keys@) == blobs(self.allowed_keys@).take(i as int),
            decreases self.allowed_keys@.len() - i,
        {
            let ghost done = blobs(allowed_keys@);
            let key = self.allowed_keys[i].clone();
            let ghost kv = self.allowed_keys@[i as int]@;
            assert(key@ =~= kv);
            allowed_keys.push(key);
            assert(blobs(allowed_keys@) =~= done.push(kv));
            assert(blobs(self.allowed_keys@).take(i + 1) =~= done.push(kv));
            i += 1;
        }
        assert(blobs(allowed_keys@) =~= blobs(self.allowed_keys@));
        Authz { insecure_allow_none: self.insecure_allow_none, allowed_keys }
    }

    /// Tells whether a key is among those that may log in.
    fn lists(&self, key: &[u8]) -> (r: bool)
        ensures
            r == self@.keys.contains(key@),
    {
        let ghost keys = blobs(self.allowed_keys@);
        let mut i: usize = 0;
        while i < self.allowed_keys.len()
            invariant
                i <= self.allowed_keys@.len(),
                keys == blobs(self.allowed_keys@),
                forall|j: int| 0 <= j < i ==> #[trigger] keys[j] != key@,
            decreases self.allowed_keys@.len() - i,
        {
            assert(keys[i as int] == self.allowed_keys@[i as int]@);
            if same_key(self.allowed_keys[i].as_slice(), key) {
                assert(keys.contains(key@));
                return true;
            }
            i += 1;
        }
        false
    }

    /// Takes up one line that holds a key, given how the line reads.
    pub fn add_line(&mut self, line: &str, reading: Result<Vec<u8>, String>) -> (r: Result<
        (),
        AuthzError,
    >)
        ensures
            final(self)@.open_to_all == old(self)@.open_to_all,
            match r {
                Ok(_) => with_line(old(self)@.keys, line@, reading_view(reading)) == Ok::<
                    Set<Seq<u8>>,
                    AuthzErrorView,
                >(final(self)@.keys),
                Err(e) => with_line(old(self)@.keys, line@, reading_view(reading)) == Err::<
                    Set<Seq<u8>>,
                    AuthzErrorView,
                >(e@) && final(self)@ == old(self)@,
            },
    {
        match reading {
            Ok(key) => {
                let ghost keys = self@.keys;
                if self.lists(key.as_slice()) {
                    assert(keys.insert(key@) =~= keys);
                } else {
                    let ghost kv = key@;
                    let ghost before = blobs(self.allowed_keys@);
                    self.allowed_keys.push(key);
                    proof {
                        let after = blobs(self.allowed_keys@);
                        assert(after =~= before.push(kv));
                        assert forall|t: Seq<u8>| #[trigger] after.to_set().contains(t)
                            == keys.insert(kv).contains(t) by {
                            if after.contains(t) {
                                let i = choose|i: int| 0 <= i < after.len() && after[i] == t;
                                if i < before.len() {
                                    assert(before[i] == t);
                                    assert(before.contains(t));
                                }
                            }
                            if before.contains(t) {
                                let i = choose|i: int| 0 <= i < before.len() && before[i] == t;
                                assert(after[i] == t);
                            }
                            assert(after[before.len() as int] == kv);
                        }
                        assert(after.to_set() =~= keys.insert(kv));
                    }
                }
                Ok(())
            },
            Err(cause) => Err(AuthzError { line: line.to_string(), cause }),
        }
    }

    /// The rule that an `authorized_keys` file states. Without a file everybody
    /// may log in.
    pub fn load(raw: Option<&str>) -> (r: Result<Authz, AuthzError>)
        ensures
            match (raw, r) {
                (None, Ok(out)) => out@ == (AuthzView { open_to_all: true, keys: Set::empty() }),
                (Some(text), Ok(out)) => !out@.open_to_all && keys_in(lines_of(text@)) == Ok::<
                    Set<Seq<u8>>,
                    AuthzErrorView,
                >(out@.keys),
                (Some(text), Err(e)) => keys_in(lines_of(text@)) == Err::<
                    Set<Seq<u8>>,
                    AuthzErrorView,
                >(e@),
                (None, Err(_)) => false,
            },
    {
        let text = match raw {
            Some(text) => text,
            None => {
                return Ok(Authz::open_to_all());
            },
        };
        let all = lines(text);
        let ghost ls = lines_of(text@);
        let mut out = Authz::closed();
        let mut i: usize = 0;
        assert(ls.take(0) =~= Seq::empty());
        while i < all.len()
            invariant
                i <= all@.len(),
                texts(all@) == ls,
                ls == lines_of(text@),
                raw == Some(text),
                !out@.open_to_all,
                keys_in(ls.take(i as int)) == Ok::<Set<Seq<u8>>, AuthzErrorView>(out@.keys),
            decreases all@.len() - i,
        {
            let line = trim(all[i].as_str());
            assert(ls[i as int] == all@[i as int]@);
            assert(ls.take(i + 1).drop_last() =~= ls.take(i as int));
            assert(ls.take(i + 1).last() == all@[i as int]@);
            let chars = chars_of(line.as_str());
            if chars.len() > 0 && chars[0] != '#' {
                match out.add_line(line.as_str(), read_key_blob(line.as_str())) {
                    Ok(_) => {},
                    Err(e) => {
                        proof {
                            lemma_keys_in_err(ls, i + 1);
                        }
                        return Err(e);
                    },
                }
            }
            i += 1;
        }
        assert(ls.take(i as int) =~= ls);
        Ok(out)
    }

    /// Tells whether a public key, in the encoding of the SSH protocol, may
    /// log in.
    pub fn allows(&self, key: &[u8]) -> (r: bool)
        ensures
            r == (self@.open_to_all || self@.keys.contains(key@)),
    {
        self.insecure_allow_none || self.lists(key)
    }

    /// Tells whether one may log in without a key.
    pub fn allows_none(&self) -> (r: bool)
        ensures
            r == self@.open_to_all,
    {
        self.insecure_allow_none
    }
}

/// A line holds a key.
pub open spec fn lists_key(line: Seq<char>, key: Seq<u8>) -> bool {
    !holds_no_key(trimmed(line)) && key_blob(key_part(trimmed(line))) == Ok::<Seq<u8>, Seq<char>>(
        key,
    )
}

/// The key of a line with a comment is the line up to the comment.
proof fn lemma_key_part(key_text: Seq<char>, line: Seq<char>)
    requires
        is_key_text(key_text),
        key_text.len() <= line.len(),
        line.take(key_text.len() as int) == key_text,
        key_text.len() < line.len() ==> line[key_text.len() as int] == ' ',
    ensures
        key_part(line) == key_text,
{
    let n = key_text.len() as int;
    let k = first_of(key_text, ' ');
    lemma_first_of(key_text, ' ');
    assert forall|i: int| 0 <= i < n implies line[i] == key_text[i] by {
        assert(line.take(n)[i] == line[i]);
    }
    lemma_first_of_is(line, ' ', k);
    let rest = line.skip(k + 1);
    assert forall|i: int| 0 <= i < n - k - 1 implies #[trigger] rest[i] != ' ' by {
        assert(rest[i] == key_text[k + 1 + i]);
    }
    lemma_first_of_is(rest, ' ', n - k - 1);
    assert(line.take(n) =~= key_text);
    if n == line.len() {
        assert(line =~= key_text);
    }
}

/// Law: a line lists the same key with a comment behind it as without.
pub proof fn a_comment_is_no_part_of_a_key(key_text: Seq<char>, comment: Seq<char>, key: Seq<u8>)
    requires
        is_key_text(key_text),
    ensures
        lists_key(key_text + seq![' '] + comment, key) <==> key_blob(key_text) == Ok::<
            Seq<u8>,
            Seq<char>,
        >(key),
        lists_key(key_text, key) <==> key_blob(key_text) == Ok::<Seq<u8>, Seq<char>>(key),
{
    let n = key_text.len() as int;
    let k = first_of(key_text, ' ');
    assert(key_text[0] != ' ' && key_text[n - 1] != ' ') by {
        lemma_first_of(key_text, ' ');
    }
    let line = key_text + seq![' '] + comment;
    assert(line[0] == key_text[0] && line[n - 1] == key_text[n - 1]);
    lemma_trimmed_keeps(line, n);
    let kept = trimmed(line);
    assert(kept.take(n) =~= key_text);
    if n < kept.len() {
        assert(kept[n] == line[n]);
    }
    lemma_key_part(key_text, kept);
    assert(kept[0] == key_text[0]);
    lemma_trimmed_keeps(key_text, n);
    assert(key_text.take(n) =~= key_text);
    lemma_key_part(key_text, key_text);
}

/// Law: a key that a line of the file lists is let in.
pub proof fn a_listed_key_is_let_in(ls: Seq<Seq<char>>, i: int, key: Seq<u8>)
    requires
        0 <= i < ls.len(),
        lists_key(ls[i], key),
    ensures
        keys_in(ls) matches Ok(keys) ==> keys.contains(key),
    decreases ls.len(),
{
    if keys_in(ls) is Ok && i < ls.len() - 1 {
        let init = ls.drop_last();
        assert(init[i] == ls[i]);
        a_listed_key_is_let_in(init, i, key);
    }
}

/// Law: a key that is let in is listed by a line of the file.
pub proof fn a_key_let_in_is_listed(ls: Seq<Seq<char>>, key: Seq<u8>)
    ensures
        keys_in(ls) matches Ok(keys) ==> keys.contains(key) ==> exists|i: int|
            0 <= i < ls.len() && lists_key(#[trigger] ls[i], key),
    decreases ls.len(),
{
    if ls.len() > 0 && keys_in(ls) is Ok && keys_in(ls)->Ok_0.contains(key) {
        let init = ls.drop_last();
        a_key_let_in_is_listed(init, key);
        if keys_in(init)->Ok_0.contains(key) {
            let i = choose|i: int| 0 <= i < init.len() && lists_key(#[trigger] init[i], key);
            assert(ls[i] == init[i]);
        } else {
            assert(lists_key(ls[ls.len() - 1], key));
        }
    }
}

/// Law: a file is refused exactly where one of its lines, without the white
/// space around it, is neither empty nor a comment nor a key.
pub proof fn file_is_refused_for_a_line(ls: Seq<Seq<char>>)
    ensures
        keys_in(ls) is Err <==> exists|i: int|
            0 <= i < ls.len() && !holds_no_key(trimmed(#[trigger] ls[i])) && key_blob(
                key_part(trimmed(ls[i])),
            ) is Err,
    decreases ls.len(),
{
    if ls.len() > 0 {
        let init = ls.drop_last();
        file_is_refused_for_a_line(init);
        if keys_in(init) is Err {
            let i = choose|i: int|
                0 <= i < init.len() && !holds_no_key(trimmed(#[trigger] init[i])) && key_blob(
                    key_part(trimmed(init[i])),
                ) is Err;
            assert(ls[i] == init[i]);
        } else {
            assert(ls[ls.len() - 1] == ls.last());
            assert forall|i: int|
                0 <= i < ls.len() && !holds_no_key(trimmed(#[trigger] ls[i])) && key_blob(
                    key_part(trimmed(ls[i])),
                ) is Err implies keys_in(ls) is Err by {
                if i < init.len() {
                    assert(init[i] == ls[i]);
                }
            }
        }
    }
}

/// Law: an empty line and a comment add no key; a line that holds a key adds
/// that key to those there were; any other line makes the file an error, which
/// names the line; and an error stays one.
pub proof fn one_more_line_adds_its_key(ls: Seq<Seq<char>>, line: Seq<char>)
    ensures
        keys_in(Seq::empty()) == Ok::<Set<Seq<u8>>, AuthzErrorView>(Set::empty()),
        keys_in(ls) matches Err(e) ==> keys_in(ls.push(line)) == Err::<
            Set<Seq<u8>>,
            AuthzErrorView,
        >(e),
        keys_in(ls) matches Ok(keys) ==> {
            let t = trimmed(line);
            &&& t.len() == 0 || t[0] == '#' ==> keys_in(ls.push(line)) == Ok::<
                Set<Seq<u8>>,
                AuthzErrorView,
            >(keys)
            &&& t.len() > 0 && t[0] != '#' ==> match key_blob(key_part(t)) {
                Ok(key) => keys_in(ls.push(line)) == Ok::<Set<Seq<u8>>, AuthzErrorView>(
                    keys.insert(key),
                ),
                Err(cause) => keys_in(ls.push(line)) == Err::<Set<Seq<u8>>, AuthzErrorView>(
                    AuthzErrorView { line: t, cause },
                ),
            }
        },
{
    assert(ls.push(line).drop_last() =~= ls);
}

/// Law: a line without a comment is read whole.
pub proof fn a_line_without_a_comment_is_read_whole(name: Seq<char>, data: Seq<char>)
    requires
        !name.contains(' '),
        !data.contains(' '),
    ensures
        key_part(name) == name,
        key_part(name + seq![' '] + data) == name + seq![' '] + data,
{
    the_first_of_a_character_cuts(name, ' ', data);
    the_first_of_a_character_cuts(data, ' ', Seq::empty());
    let line = name + seq![' '] + data;
    assert(line.skip(name.len() as int + 1) =~= data);
}

/// Law: a line that is no key is told with what is wrong with it.
pub proof fn a_bad_line_is_told(e: AuthzError)
    ensures
        e@.line == e.line@,
        e@.cause == e.cause@,
        e@.message() == "invalid authorized key line: "@ + e.line@ + ": "@ + e.cause@,
{
}

/// Law: how a line reads is seen as it is, and keys one for one.
pub proof fn keys_are_seen_as_they_are(keys: Seq<Vec<u8>>, key: Vec<u8>, cause: String)
    ensures
        blobs(keys).len() == keys.len(),
        forall|i: int| 0 <= i < keys.len() ==> #[trigger] blobs(keys)[i] == keys[i]@,
        reading_view(Ok(key)) == Ok::<Seq<u8>, Seq<char>>(key@),
        reading_view(Err(cause)) == Err::<Seq<u8>, Seq<char>>(cause@),
        with_line(Set::empty(), Seq::empty(), Ok(key@)) == Ok::<Set<Seq<u8>>, AuthzErrorView>(
            Set::empty().insert(key@),
        ),
{
}

/// Law: without a file everybody is let in; with one, a key is let in exactly
/// where a line of the file lists it, and nobody without a key.
pub proof fn who_is_let_in(
    raw: Option<&str>,
    authz: Authz,
    key: &[u8],
    allowed: bool,
    without: bool,
)
    requires
        call_ensures(Authz::load, (raw,), Ok::<Authz, AuthzError>(authz)),
        call_ensures(Authz::allows, (&authz, key), allowed),
        call_ensures(Authz::allows_none, (&authz,), without),
    ensures
        raw is None ==> allowed && without,
        raw matches Some(text) ==> !without && (allowed <==> exists|i: int|
            0 <= i < lines_of(text@).len() && lists_key(#[trigger] lines_of(text@)[i], key@)),
{
    if let Some(text) = raw {
        let ls = lines_of(text@);
        a_key_let_in_is_listed(ls, key@);
        assert forall|i: int| 0 <= i < ls.len() && lists_key(#[trigger] ls[i], key@) implies allowed by {
            a_listed_key_is_let_in(ls, i, key@);
        }
    }
}

/// Law: a key without a comment is an algorithm's name, a space and data, each
/// of letters, digits and a few signs.
pub proof fn the_form_of_a_key(name: Seq<char>, data: Seq<char>)
    requires
        name.len() > 0,
        data.len() > 0,
        !name.contains(' '),
    ensures
        is_key_text(name + seq![' '] + data) <==> forall|i: int|
            0 <= i < (name + data).len() ==> {
                let c = #[trigger] (name + data)[i];
                ||| 'a' <= c <= 'z'
                ||| 'A' <= c <= 'Z'
                ||| '0' <= c <= '9'
                ||| c == '+' || c == '-' || c == '/' || c == '=' || c == '@' || c == '.'
            },
{
    let text = name + seq![' '] + data;
    let both = name + data;
    let k = name.len() as int;
    the_first_of_a_character_cuts(name, ' ', data);
    if is_key_text(text) {
        assert forall|i: int| 0 <= i < both.len() implies {
            let c = #[trigger] both[i];
            ||| 'a' <= c <= 'z'
            ||| 'A' <= c <= 'Z'
            ||| '0' <= c <= '9'
            ||| c == '+' || c == '-' || c == '/' || c == '=' || c == '@' || c == '.'
        } by {
            if i < k {
                assert(text[i] == both[i]);
            } else {
                assert(text[i + 1] == both[i]);
            }
        }
    } else {
        let j = choose|j: int| 0 <= j < text.len() && j != k && !is_key_char(#[trigger] text[j]);
        if j < k {
            assert(both[j] == text[j]);
        } else {
            assert(both[j - 1] == text[j]);
        }
    }
}

} // verus!
