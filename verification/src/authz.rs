//! Who may edit the site in the browser. Fail closed: an editor is named
//! explicitly, by user id or by group, in the site's `auth` settings; with no
//! settings or empty lists nobody edits, and anonymous requests never do.
use vstd::prelude::*;

use crate::text::{str_eq, to_chars};

verus! {

/// The identity a request carries, as forwarded by the authenticating proxy.
pub struct Identity {
    pub user: String,
    pub email: String,
    pub name: String,
    pub groups: Vec<String>,
}

/// The site's editor allowlists.
pub struct AuthConfig {
    pub editors: Option<Vec<String>>,
    pub editor_groups: Option<Vec<String>>,
}

/// A character's code point with ASCII upper case mapped to lower case.
pub open spec fn ascii_fold(c: char) -> int {
    if 'A' <= c && c <= 'Z' {
        c as int + 32
    } else {
        c as int
    }
}

/// The two strings are equal when ASCII letters are compared without case.
pub open spec fn eq_ignore_ascii_case(a: Seq<char>, b: Seq<char>) -> bool {
    a.len() == b.len() && forall|i: int| 0 <= i < a.len() ==> #[trigger] ascii_fold(a[i]) == ascii_fold(b[i])
}

fn ascii_fold_exec(c: char) -> (r: u32)
    ensures
        r as int == ascii_fold(c),
{
    if 'A' <= c && c <= 'Z' {
        c as u32 + 32
    } else {
        c as u32
    }
}

/// Whether two strings are equal up to the case of ASCII letters.
pub fn str_eq_ignore_ascii_case(a: &str, b: &str) -> (r: bool)
    ensures
        r == eq_ignore_ascii_case(a@, b@),
{
    let va = to_chars(a);
    let vb = to_chars(b);
    if va.len() != vb.len() {
        return false;
    }
    let mut i: usize = 0;
    while i < va.len()
        invariant
            i <= va.len(),
            va.len() == vb.len(),
            va@ == a@,
            vb@ == b@,
            forall|j: int| 0 <= j < i ==> #[trigger] ascii_fold(va@[j]) == ascii_fold(vb@[j]),
        decreases va.len() - i,
    {
        if ascii_fold_exec(va[i]) != ascii_fold_exec(vb[i]) {
            return false;
        }
        i = i + 1;
    }
    true
}

/// The allowlist, or nothing when it is absent.
pub open spec fn listed(list: Option<Vec<String>>) -> Seq<String> {
    match list {
        Some(v) => v@,
        None => Seq::empty(),
    }
}

/// The identity's user id is in the editor list, ignoring ASCII case.
pub open spec fn editor_by_user(identity: Identity, auth: AuthConfig) -> bool {
    exists|i: int|
        0 <= i < listed(auth.editors).len() && eq_ignore_ascii_case(
            #[trigger] listed(auth.editors)[i]@,
            identity.user@,
        )
}

/// One of the identity's groups is in the editor-group list, exactly.
pub open spec fn editor_by_group(identity: Identity, auth: AuthConfig) -> bool {
    exists|i: int, g: int|
        0 <= i < listed(auth.editor_groups).len() && 0 <= g < identity.groups@.len()
            && #[trigger] listed(auth.editor_groups)[i]@ == #[trigger] identity.groups@[g]@
}

/// An identity edits when its user id or one of its groups is listed; no
/// identity never edits.
pub open spec fn spec_is_editor(identity: Option<Identity>, auth: AuthConfig) -> bool {
    match identity {
        Some(id) => editor_by_user(id, auth) || editor_by_group(id, auth),
        None => false,
    }
}

fn listed_exec(list: &Option<Vec<String>>) -> (r: &[String])
    ensures
        r@ == listed(*list),
{
    match list {
        Some(v) => v.as_slice(),
        None => &[],
    }
}

/// Whether `identity` may edit under `auth`.
pub fn is_editor(identity: Option<&Identity>, auth: &AuthConfig) -> (r: bool)
    ensures
        r == spec_is_editor(
            match identity {
                Some(id) => Some(*id),
                None => None,
            },
            *auth,
        ),
{
    let id = match identity {
        Some(id) => id,
        None => return false,
    };
    let editors = listed_exec(&auth.editors);
    let mut i: usize = 0;
    while i < editors.len()
        invariant
            i <= editors.len(),
            identity == Some(id),
            editors@ == listed(auth.editors),
            forall|j: int| 0 <= j < i ==> !eq_ignore_ascii_case(#[trigger] editors@[j]@, id.user@),
        decreases editors.len() - i,
    {
        if str_eq_ignore_ascii_case(editors[i].as_str(), id.user.as_str()) {
            assert(eq_ignore_ascii_case(listed(auth.editors)[i as int]@, id.user@));
            return true;
        }
        i = i + 1;
    }
    let groups = listed_exec(&auth.editor_groups);
    let mut i: usize = 0;
    while i < groups.len()
        invariant
            i <= groups.len(),
            identity == Some(id),
            groups@ == listed(auth.editor_groups),
            !editor_by_user(*id, *auth),
            forall|j: int, g: int|
                0 <= j < i && 0 <= g < id.groups@.len() ==> #[trigger] groups@[j]@
                    != #[trigger] id.groups@[g]@,
        decreases groups.len() - i,
    {
        let mut g: usize = 0;
        while g < id.groups.len()
            invariant
                i < groups.len(),
                g <= id.groups.len(),
                identity == Some(id),
                groups@ == listed(auth.editor_groups),
                forall|j: int, h: int|
                    0 <= j < i && 0 <= h < id.groups@.len() ==> #[trigger] groups@[j]@
                        != #[trigger] id.groups@[h]@,
                forall|h: int| 0 <= h < g ==> groups@[i as int]@ != #[trigger] id.groups@[h]@,
            decreases id.groups.len() - g,
        {
            if str_eq(id.groups[g].as_str(), groups[i].as_str()) {
                assert(listed(auth.editor_groups)[i as int]@ == id.groups@[g as int]@);
                return true;
            }
            g = g + 1;
        }
        i = i + 1;
    }
    false
}

/// A request without an identity is never an editor, whatever the settings.
pub proof fn law_anonymous_is_never_an_editor(auth: AuthConfig)
    ensures
        !spec_is_editor(None, auth),
{
}

/// With no editors and no editor groups listed (absent or empty), nobody
/// is an editor.
pub proof fn law_empty_config_fails_closed(identity: Option<Identity>, auth: AuthConfig)
    requires
        listed(auth.editors).len() == 0,
        listed(auth.editor_groups).len() == 0,
    ensures
        !spec_is_editor(identity, auth),
{
}

/// Listing a user id makes every identity whose user id differs from it
/// only in the case of ASCII letters an editor.
pub proof fn law_user_match_ignores_ascii_case(identity: Identity, auth: AuthConfig, i: int)
    requires
        0 <= i < listed(auth.editors).len(),
        eq_ignore_ascii_case(listed(auth.editors)[i]@, identity.user@),
    ensures
        spec_is_editor(Some(identity), auth),
{
}

} // verus!
