//! The domain model: users, shouts, and the checks on their fields.
use vstd::prelude::*;

verus! {

/// The identity of a user or a shout: a UUID as its 128-bit value.
#[derive(Clone, Copy, Debug, PartialEq, Eq, Structural)]
pub struct Id {
    pub value: u128,
}

/// The value of a hexadecimal digit, in either case.
pub open spec fn hex_digit(c: char) -> Option<nat> {
    if '0' <= c && c <= '9' {
        Some((c as u32 - '0' as u32) as nat)
    } else if 'a' <= c && c <= 'f' {
        Some((c as u32 - 'a' as u32 + 10) as nat)
    } else if 'A' <= c && c <= 'F' {
        Some((c as u32 - 'A' as u32 + 10) as nat)
    } else {
        None
    }
}

/// The number that the hexadecimal digits `s` spell, most significant
/// first; `None` if one is not a digit.
pub open spec fn hex_value(s: Seq<char>) -> Option<nat>
    decreases s.len(),
{
    if s.len() == 0 {
        Some(0)
    } else {
        match (hex_value(s.drop_last()), hex_digit(s.last())) {
            (Some(h), Some(d)) => Some(h * 16 + d),
            _ => None,
        }
    }
}

/// The value of a hyphenated UUID: 36 characters with hyphens at 8, 13, 18
/// and 23 and hexadecimal digits elsewhere.
pub open spec fn hyphenated_value(s: Seq<char>) -> Option<nat> {
    if s.len() == 36 && s[8] == '-' && s[13] == '-' && s[18] == '-' && s[23] == '-' {
        hex_value(
            s.subrange(0, 8) + s.subrange(9, 13) + s.subrange(14, 18) + s.subrange(19, 23)
                + s.subrange(24, 36),
        )
    } else {
        None
    }
}

/// `s` starts with `urn:uuid:`, letters in either case.
pub open spec fn urn_prefix(s: Seq<char>) -> bool {
    let p = "urn:uuid:"@;
    s.len() >= 9 && forall|i: int|
        0 <= i < 9 ==> s[i] == p[i] || ('A' <= s[i] && s[i] <= 'Z' && s[i] as u32 + 32 == p[i] as u32)
}

/// The value of the UUID that `s` spells: 32 hexadecimal digits; or the
/// hyphenated form, bare, in braces, or after `urn:uuid:`.
pub open spec fn uuid_value(s: Seq<char>) -> Option<u128> {
    let v = if s.len() == 32 {
        hex_value(s)
    } else if s.len() == 36 {
        hyphenated_value(s)
    } else if s.len() == 38 && s[0] == '{' && s[37] == '}' {
        hyphenated_value(s.subrange(1, 37))
    } else if s.len() == 45 && urn_prefix(s) {
        hyphenated_value(s.subrange(9, 45))
    } else {
        None
    };
    match v {
        Some(n) => Some(n as u128),
        None => None,
    }
}

/// Why a text is not a UUID.
pub struct IdParseError {
    pub error: uuid::Error,
}

#[verifier::external_type_specification]
#[verifier::external_body]
pub struct ExUuidError(uuid::Error);

/// Relies on `uuid::Uuid::parse_str` (with `as_u128`, its bytes read big
/// endian): the value of the UUID that `s` spells in one of its four
/// accepted forms, or its error.
#[verifier::external_body]
fn parse_uuid(s: &str) -> (r: Result<u128, uuid::Error>)
    ensures
        r is Ok <==> uuid_value(s@) is Some,
        r is Ok ==> r->Ok_0 == uuid_value(s@)->Some_0,
{
    uuid::Uuid::parse_str(s).map(|u| u.as_u128())
}

impl Id {
    /// The identity that the UUID text `s` spells.
    pub fn from_str(s: &str) -> (r: Result<Id, IdParseError>)
        ensures
            r is Ok <==> uuid_value(s@) is Some,
            r is Ok ==> r->Ok_0.value == uuid_value(s@)->Some_0,
    {
        match parse_uuid(s) {
            Ok(value) => Ok(Id { value }),
            Err(error) => Err(IdParseError { error }),
        }
    }
}

/// A failed check on one field.
#[derive(Clone, Debug, PartialEq, Eq)]
pub struct ValidationError {
    pub code: String,
}

/// Every character of `s` is ASCII.
pub open spec fn all_ascii(s: Seq<char>) -> bool {
    forall|i: int| 0 <= i < s.len() ==> (#[trigger] s[i]) as u32 <= 0x7f
}

/// Accepts a text of ASCII characters only; any other gives the error
/// `non_ascii_char_included`.
pub fn only_ascii(checking_str: &str) -> (r: Result<(), ValidationError>)
    ensures
        r is Ok <==> all_ascii(checking_str@),
        r is Err ==> r->Err_0.code@ == "non_ascii_char_included"@,
{
    let chars = crate::text::chars_of(checking_str);
    let mut i: usize = 0;
    while i < chars.len()
        invariant
            chars@ == checking_str@,
            i <= chars@.len(),
            forall|j: int| 0 <= j < i ==> (#[trigger] chars@[j]) as u32 <= 0x7f,
        decreases chars@.len() - i,
    {
        if chars[i] as u32 > 0x7f {
            return Err(ValidationError { code: "non_ascii_char_included".to_owned() });
        }
        i = i + 1;
    }
    Ok(())
}

/// The checks a shout failed.
#[derive(Clone, Copy, Debug, PartialEq, Eq, Structural)]
pub struct ValidationErrors {
    /// The content is not 4 to 256 characters long.
    pub content_length: bool,
    /// A user likes the shout twice.
    pub likes_not_unique: bool,
}

/// The values of the ids `v`.
pub open spec fn id_values(v: Seq<Id>) -> Seq<u128> {
    v.map_values(|i: Id| i.value)
}

/// No id occurs twice in `v`.
pub open spec fn ids_unique(v: Seq<Id>) -> bool {
    forall|i: int, j: int| 0 <= i < v.len() && 0 <= j < v.len() && i != j ==> v[i] != v[j]
}

/// The content of a shout has an acceptable length.
pub open spec fn content_ok(content: Seq<char>) -> bool {
    4 <= content.len() <= 256
}

/// A message and the users who like it.
pub struct Shout {
    id: Id,
    content: String,
    likes: Vec<Id>,
}

/// Whether `id` is in `v`, and where.
fn position(v: &Vec<Id>, id: Id) -> (r: Option<usize>)
    ensures
        r is Some ==> r->Some_0 < v@.len() && v@[r->Some_0 as int] == id,
        r is None ==> !v@.contains(id),
{
    let mut i: usize = 0;
    while i < v.len()
        invariant
            i <= v@.len(),
            forall|j: int| 0 <= j < i ==> v@[j] != id,
        decreases v@.len() - i,
    {
        if v[i] == id {
            return Some(i);
        }
        i = i + 1;
    }
    None
}

/// Whether no id occurs twice in `v`.
fn all_unique(v: &Vec<Id>) -> (r: bool)
    ensures
        r == ids_unique(v@),
{
    let mut i: usize = 0;
    while i < v.len()
        invariant
            i <= v@.len(),
            forall|a: int, b: int| 0 <= a < i && 0 <= b < v@.len() && a != b ==> v@[a] != v@[b],
        decreases v@.len() - i,
    {
        let mut j: usize = 0;
        while j < v.len()
            invariant
                i < v@.len(),
                j <= v@.len(),
                forall|a: int, b: int| 0 <= a < i && 0 <= b < v@.len() && a != b ==> v@[a] != v@[b],
                forall|b: int| 0 <= b < j && b != i ==> v@[i as int] != v@[b],
            decreases v@.len() - j,
        {
            if j != i && v[i] == v[j] {
                return false;
            }
            j = j + 1;
        }
        i = i + 1;
    }
    true
}

impl Shout {
    /// The likes hold no user twice.
    pub closed spec fn wf(&self) -> bool {
        ids_unique(self.likes@)
    }

    /// The users who like the shout.
    pub closed spec fn liked(&self) -> Set<Id> {
        self.likes@.to_set()
    }

    /// The id of the shout.
    pub closed spec fn id_spec(&self) -> Id {
        self.id
    }

    /// The content of the shout.
    pub closed spec fn content_spec(&self) -> Seq<char> {
        self.content@
    }

    /// A shout, if its content is 4 to 256 characters long and no user
    /// likes it twice; else the checks it failed.
    pub fn new(id: Id, content: String, likes: Vec<Id>) -> (r: Result<Shout, ValidationErrors>)
        ensures
            r is Ok <==> content_ok(content@) && ids_unique(likes@),
            r is Ok ==> r->Ok_0.wf() && r->Ok_0.id_spec() == id && r->Ok_0.content_spec()
                == content@ && r->Ok_0.liked() == likes@.to_set(),
            r is Err ==> r->Err_0.content_length == !content_ok(content@)
                && r->Err_0.likes_not_unique == !ids_unique(likes@),
    {
        let n = content.as_str().unicode_len();
        let length_bad = n < 4 || n > 256;
        let unique = all_unique(&likes);
        if length_bad || !unique {
            return Err(ValidationErrors { content_length: length_bad, likes_not_unique: !unique });
        }
        Ok(Shout { id, content, likes })
    }

    /// The id of the shout.
    pub fn id(&self) -> (r: Id)
        ensures
            r == self.id_spec(),
    {
        self.id
    }

    /// The content of the shout.
    pub fn content(&self) -> (r: &str)
        ensures
            r@ == self.content_spec(),
    {
        self.content.as_str()
    }

    /// Whether `user_id` likes the shout.
    pub fn liked_by(&self, user_id: Id) -> (r: bool)
        ensures
            r == self.liked().contains(user_id),
    {
        position(&self.likes, user_id).is_some()
    }

    /// Adds the like of `user_id`; false if it was there already.
    pub fn like(&mut self, user_id: Id) -> (r: bool)
        requires
            old(self).wf(),
        ensures
            final(self).wf(),
            r == !old(self).liked().contains(user_id),
            final(self).liked() == old(self).liked().insert(user_id),
            final(self).id_spec() == old(self).id_spec(),
            final(self).content_spec() == old(self).content_spec(),
    {
        if position(&self.likes, user_id).is_none() {
            self.likes.push(user_id);
            proof {
                assert(self.likes@.to_set() =~= old(self).likes@.to_set().insert(user_id)) by {
                    assert forall|x: Id| self.likes@.to_set().contains(x) <==> old(self).likes@.to_set().insert(user_id).contains(x) by {
                        if self.likes@.contains(x) {
                            let k = choose|k: int| 0 <= k < self.likes@.len() && self.likes@[k] == x;
                            if k < old(self).likes@.len() {
                                assert(old(self).likes@[k] == x);
                            }
                        }
                        if old(self).likes@.contains(x) {
                            let k = choose|k: int| 0 <= k < old(self).likes@.len() && old(self).likes@[k] == x;
                            assert(self.likes@[k] == x);
                        }
                        if x == user_id {
                            assert(self.likes@[old(self).likes@.len() as int] == x);
                        }
                    }
                }
            }
            true
        } else {
            proof {
                assert(old(self).likes@.to_set().insert(user_id) =~= old(self).likes@.to_set());
            }
            false
        }
    }

    /// Takes back the like of `user_id`; false if there was none.
    pub fn dislike(&mut self, user_id: Id) -> (r: bool)
        requires
            old(self).wf(),
        ensures
            final(self).wf(),
            r == old(self).liked().contains(user_id),
            final(self).liked() == old(self).liked().remove(user_id),
            final(self).id_spec() == old(self).id_spec(),
            final(self).content_spec() == old(self).content_spec(),
    {
        match position(&self.likes, user_id) {
            Some(index) => {
                self.remove_at(index);
                true
            },
            None => {
                proof {
                    assert(old(self).likes@.to_set().remove(user_id) =~= old(self).likes@.to_set());
                }
                false
            },
        }
    }

    /// Adds the like of `user_id` if there was none, else takes it back.
    pub fn switch_like(&mut self, user_id: Id)
        requires
            old(self).wf(),
        ensures
            final(self).wf(),
            old(self).liked().contains(user_id) ==> final(self).liked() == old(self).liked().remove(
                user_id,
            ),
            !old(self).liked().contains(user_id) ==> final(self).liked() == old(self).liked().insert(
                user_id,
            ),
            final(self).id_spec() == old(self).id_spec(),
            final(self).content_spec() == old(self).content_spec(),
    {
        if self.liked_by(user_id) {
            self.dislike(user_id);
        } else {
            self.like(user_id);
        }
    }

    /// Removes the like at `index`, moving the last one in its place.
    fn remove_at(&mut self, index: usize)
        requires
            old(self).wf(),
            index < old(self).likes@.len(),
        ensures
            final(self).wf(),
            final(self).liked() == old(self).liked().remove(old(self).likes@[index as int]),
            final(self).id == old(self).id,
            final(self).content == old(self).content,
    {
        let ghost old_likes = self.likes@;
        let ghost gone = old_likes[index as int];
        self.likes.swap_remove(index);
        proof {
            let n = old_likes.len();
            assert forall|a: int| 0 <= a < self.likes@.len() implies #[trigger] self.likes@[a] == if a == index {
                old_likes[n - 1]
            } else {
                old_likes[a]
            } by {}
            assert forall|x: Id| self.likes@.to_set().contains(x) <==> old_likes.to_set().remove(gone).contains(x) by {
                if self.likes@.contains(x) {
                    let k = choose|k: int| 0 <= k < self.likes@.len() && self.likes@[k] == x;
                    if k == index {
                        assert(old_likes[n - 1] == x);
                    } else {
                        assert(old_likes[k] == x);
                    }
                }
                if old_likes.contains(x) && x != gone {
                    let k = choose|k: int| 0 <= k < n && old_likes[k] == x;
                    if k == n - 1 {
                        assert(self.likes@[index as int] == x);
                    } else {
                        assert(k != index);
                        assert(self.likes@[k] == x);
                    }
                }
            }
            assert(self.likes@.to_set() =~= old_likes.to_set().remove(gone));
        }
    }
}

/// A user of the service.
pub struct User {
    pub id: Id,
    pub screen_name: String,
    pub name: String,
    pub bio: String,
}

impl User {
    /// A user with the given fields.
    pub fn new(id: Id, screen_name: String, name: String, bio: String) -> (r: User)
        ensures
            r.id == id,
            r.screen_name == screen_name,
            r.name == name,
            r.bio == bio,
    {
        User { id, screen_name, name, bio }
    }
}

} // verus!
