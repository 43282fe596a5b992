//! Contributor identities.

use vstd::prelude::*;
use vstd::string::*;

verus! {

/// The author of a commit as the store records it.
#[derive(Clone, Debug, PartialEq, Eq)]
pub struct Author {
    pub name: String,
    pub email: String,
}

/// The mathematical value of an [`Author`]: the characters of name and email.
pub struct Identity {
    pub name: Seq<char>,
    pub email: Seq<char>,
}

/// The one string that stands for an identity when contributors are counted:
/// the name, a space, and the email in angle brackets.
pub open spec fn canonical(who: Identity) -> Seq<char> {
    who.name + seq![' ', '<'] + who.email + seq!['>']
}

impl View for Author {
    type V = Identity;

    open spec fn view(&self) -> Identity {
        Identity { name: self.name@, email: self.email@ }
    }
}

impl Author {
    /// The author with the given name and email.
    pub fn new(name: &str, email: &str) -> (author: Author)
        ensures
            author@ == (Identity { name: name@, email: email@ }),
    {
        Author { name: String::from_str(name), email: String::from_str(email) }
    }

    /// Renders the identity as `Name <email>`.
    pub fn canonical(&self) -> (text: String)
        ensures
            text@ == canonical(self@),
    {
        proof {
            reveal_strlit(" <");
            reveal_strlit(">");
        }
        let mut text = self.name.clone();
        text.append(" <");
        text.append(self.email.as_str());
        text.append(">");
        proof {
            assert(" <"@ =~= seq![' ', '<']);
            assert(">"@ =~= seq!['>']);
        }
        text
    }
}

/// Two identities with one name and different emails are written differently.
pub proof fn lemma_emails_tell_apart(a: Identity, b: Identity)
    requires
        a.name == b.name,
        a.email != b.email,
    ensures
        canonical(a) != canonical(b),
{
    if canonical(a) == canonical(b) {
        let n = a.name.len() as int;
        let sa = canonical(a);
        let sb = canonical(b);
        assert(sa.len() == n + a.email.len() + 3);
        assert(sb.len() == n + b.email.len() + 3);
        assert(a.email.len() == b.email.len());
        assert forall|i: int| 0 <= i < a.email.len() implies a.email[i] == b.email[i] by {
            assert(sa[n + 2 + i] == a.email[i]);
            assert(sb[n + 2 + i] == b.email[i]);
        }
        assert(a.email =~= b.email);
    }
}

/// Identities whose emails hold no `<` are written the same only when name
/// and email are both the same.
pub proof fn lemma_canonical_is_injective(a: Identity, b: Identity)
    requires
        !a.email.contains('<'),
        !b.email.contains('<'),
        canonical(a) == canonical(b),
    ensures
        a == b,
{
    let sa = canonical(a);
    let sb = canonical(b);
    let na = a.name.len() as int;
    let nb = b.name.len() as int;
    assert(sa.len() == na + a.email.len() + 3);
    assert(sb.len() == nb + b.email.len() + 3);
    if na < nb {
        lemma_bracket_in_email(a, b);
    } else if nb < na {
        lemma_bracket_in_email(b, a);
    } else {
        assert forall|i: int| 0 <= i < na implies a.name[i] == b.name[i] by {
            assert(sa[i] == a.name[i]);
            assert(sb[i] == b.name[i]);
        }
        assert(a.name =~= b.name);
        if a.email != b.email {
            lemma_emails_tell_apart(a, b);
        }
    }
}

/// Where two identities are written the same and the first name is the
/// shorter, the first email holds the `<` that opens the second one.
proof fn lemma_bracket_in_email(a: Identity, b: Identity)
    requires
        canonical(a) == canonical(b),
        a.name.len() < b.name.len(),
    ensures
        a.email.contains('<'),
{
    let sa = canonical(a);
    let sb = canonical(b);
    let na = a.name.len() as int;
    let nb = b.name.len() as int;
    assert(sa.len() == na + a.email.len() + 3);
    assert(sb.len() == nb + b.email.len() + 3);
    let k = nb + 1;
    assert(sb[k] == '<');
    let i = k - (na + 2);
    if i < a.email.len() {
        assert(sa[k] == a.email[i]);
    } else {
        assert(sa[k] == '>');
    }
}

} // verus!
