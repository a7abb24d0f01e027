//! The built-in `say` command: it echoes its arguments with the references
//! to users, roles and channels made harmless.

use vstd::prelude::*;
use serenity::cache::Cache;
use serenity::model::id::GuildId;
use serenity::model::user::User;
use serenity::utils::{content_safe, ContentSafeOptions};
use crate::text::decimal;

verus! {

/// The gateway client's cache of guilds, channels and users.
#[verifier::external_type_specification]
#[verifier::external_body]
pub struct ExCache(serenity::cache::Cache);

/// A user as the gateway client reports one.
#[verifier::external_type_specification]
#[verifier::external_body]
pub struct ExUser(serenity::model::user::User);

/// Which references are rewritten, and how users are shown.
#[derive(Clone, Copy, Debug, PartialEq, Eq, Structural)]
pub struct SanitizePolicy {
    /// Role mentions become the role's name.
    pub clean_role: bool,
    /// User mentions become the user's name.
    pub clean_user: bool,
    /// Channel mentions become the channel's name.
    pub clean_channel: bool,
    /// `@here` is defused.
    pub clean_here: bool,
    /// `@everyone` is defused.
    pub clean_everyone: bool,
    /// A user's name is followed by the discriminator.
    pub show_discriminator: bool,
    /// The guild in which users are shown as its members, if any.
    pub member_display: Option<u64>,
}

/// The policy of `say`. Channel mentions are never rewritten, since they ping
/// nobody. In a guild, users are shown as members of that guild, under their
/// display name alone; in a direct exchange, a user's name carries the
/// discriminator and role mentions are left alone as well.
pub open spec fn policy_for(guild: Option<u64>) -> SanitizePolicy {
    SanitizePolicy {
        clean_role: guild is Some,
        clean_user: true,
        clean_channel: false,
        clean_here: true,
        clean_everyone: true,
        show_discriminator: guild is None,
        member_display: guild,
    }
}

/// Chooses the policy for a message from the guild it came from, if any.
pub fn say_policy(guild: Option<u64>) -> (policy: SanitizePolicy)
    ensures
        policy == policy_for(guild),
{
    let in_guild = match guild {
        Some(_) => true,
        None => false,
    };
    SanitizePolicy {
        clean_role: in_guild,
        clean_user: true,
        clean_channel: false,
        clean_here: true,
        clean_everyone: true,
        show_discriminator: !in_guild,
        member_display: guild,
    }
}

/// The word that pings everybody who is online.
pub open spec fn here_text() -> Seq<char> {
    seq!['@', 'h', 'e', 'r', 'e']
}

/// The word that pings everybody.
pub open spec fn everyone_text() -> Seq<char> {
    seq!['@', 'e', 'v', 'e', 'r', 'y', 'o', 'n', 'e']
}

/// Whether `pattern` stands somewhere in `text`.
pub open spec fn occurs(text: Seq<char>, pattern: Seq<char>) -> bool {
    exists|at: int|
        0 <= at && at + pattern.len() <= text.len() && #[trigger] text.subrange(
            at,
            at + pattern.len(),
        ) == pattern
}

/// Text without `@`: it holds no mention of a user or a role and pings nobody.
pub open spec fn has_no_at(text: Seq<char>) -> bool {
    forall|i: int| 0 <= i < text.len() ==> text[i] != '@'
}

/// The position of the first `<` at or after `from`, or the end of the text.
pub open spec fn first_open(text: Seq<char>, from: int) -> int
    decreases text.len() - from,
{
    if from < 0 || from >= text.len() || text[from] == '<' {
        from
    } else {
        first_open(text, from + 1)
    }
}

/// `text` with the two pinging words defused: a zero-width space follows
/// every `@` that stands before `here`, if `here` is set, and every `@` that
/// stands before `everyone`, if `everyone` is set.
pub open spec fn defused(text: Seq<char>, here: bool, everyone: bool) -> Seq<char>
    decreases text.len(),
{
    if text.len() == 0 {
        text
    } else {
        let tail = text.drop_first();
        let pings = text[0] == '@' && ((here && here_text().drop_first().is_prefix_of(tail)) || (
        everyone && everyone_text().drop_first().is_prefix_of(tail)));
        if pings {
            seq!['@', '\u{200B}'] + defused(tail, here, everyone)
        } else {
            seq![text[0]] + defused(tail, here, everyone)
        }
    }
}

/// Text without `@` is its own defused form.
pub proof fn lemma_defused_plain(text: Seq<char>, here: bool, everyone: bool)
    requires
        has_no_at(text),
    ensures
        defused(text, here, everyone) == text,
    decreases text.len(),
{
    if text.len() > 0 {
        let tail = text.drop_first();
        assert forall|i: int| 0 <= i < tail.len() implies tail[i] != '@' by {
            assert(tail[i] == text[i + 1]);
        }
        lemma_defused_plain(tail, here, everyone);
        assert(text[0] != '@');
        assert(seq![text[0]] + tail =~= text);
    }
}

/// A word without `@` that stands at the front of a defused text stood at
/// the front of the text itself.
pub proof fn lemma_defused_front(text: Seq<char>, here: bool, everyone: bool, word: Seq<char>)
    requires
        has_no_at(word),
        word.is_prefix_of(defused(text, here, everyone)),
    ensures
        word.is_prefix_of(text),
    decreases word.len(),
{
    if word.len() > 0 {
        let made = defused(text, here, everyone);
        let tail = text.drop_first();
        assert(made[0] == word[0]);
        assert(text.len() > 0);
        assert(made[0] == text[0]);
        assert(made =~= seq![text[0]] + defused(tail, here, everyone));
        let shorter = word.drop_first();
        assert(has_no_at(shorter)) by {
            assert forall|i: int| 0 <= i < shorter.len() implies shorter[i] != '@' by {
                assert(shorter[i] == word[i + 1]);
            }
        }
        assert(shorter.is_prefix_of(defused(tail, here, everyone))) by {
            assert forall|i: int| 0 <= i < shorter.len() implies shorter[i] == defused(
                tail,
                here,
                everyone,
            )[i] by {
                assert(shorter[i] == word[i + 1]);
                assert(made[i + 1] == defused(tail, here, everyone)[i]);
            }
        }
        lemma_defused_front(tail, here, everyone, shorter);
        assert(word.is_prefix_of(text)) by {
            assert forall|i: int| 0 <= i < word.len() implies word[i] == text[i] by {
                if i > 0 {
                    assert(shorter[i - 1] == tail[i - 1]);
                }
            }
        }
    }
}

/// A defused text does not hold `word`, where `word` is a pinging word that
/// was to be defused.
proof fn lemma_word_is_defused(text: Seq<char>, here: bool, everyone: bool, word: Seq<char>)
    requires
        word == here_text() && here || word == everyone_text() && everyone,
    ensures
        !occurs(defused(text, here, everyone), word),
    decreases text.len(),
{
    let made = defused(text, here, everyone);
    assert(here_text().len() == 5 && everyone_text().len() == 9);
    if text.len() > 0 {
        let tail = text.drop_first();
        let rest = defused(tail, here, everyone);
        lemma_word_is_defused(tail, here, everyone, word);
        let pings = text[0] == '@' && ((here && here_text().drop_first().is_prefix_of(tail)) || (
        everyone && everyone_text().drop_first().is_prefix_of(tail)));
        let skipped: int = if pings {
            2
        } else {
            1
        };
        assert(made.len() == rest.len() + skipped);
        assert(forall|i: int| 0 <= i < rest.len() ==> made[i + skipped] == rest[i]);
        assert(has_no_at(here_text().drop_first()));
        assert(has_no_at(everyone_text().drop_first()));
        assert forall|at: int|
            0 <= at && at + word.len() <= made.len() implies #[trigger] made.subrange(
            at,
            at + word.len(),
        ) != word by {
            let found = made.subrange(at, at + word.len());
            if found == word {
                assert(found[0] == '@' && found[1] != '\u{200B}');
                assert(made[at] == found[0] && made[at + 1] == found[1]);
                if at >= skipped {
                    assert(rest.subrange(at - skipped, at - skipped + word.len()) =~= word);
                    assert(occurs(rest, word));
                } else if at == 0 && !pings {
                    let after = word.drop_first();
                    assert(after.is_prefix_of(rest)) by {
                        assert forall|i: int| 0 <= i < after.len() implies after[i]
                            == rest[i] by {
                            assert(found[i + 1] == made[i + 1]);
                        }
                    }
                    lemma_defused_front(tail, here, everyone, after);
                }
            }
        }
    }
}

/// A defused text holds none of the pinging words that were to be defused.
pub proof fn lemma_defused_pings_nobody(text: Seq<char>, here: bool, everyone: bool)
    ensures
        here ==> !occurs(defused(text, here, everyone), here_text()),
        everyone ==> !occurs(defused(text, here, everyone), everyone_text()),
{
    if here {
        lemma_word_is_defused(text, here, everyone, here_text());
    }
    if everyone {
        lemma_word_is_defused(text, here, everyone, everyone_text());
    }
}

/// The reference to the user `id`, in its plain form or, if `nick` is set,
/// in the form that asks for the nickname.
pub open spec fn user_reference(id: u64, nick: bool) -> Seq<char> {
    if nick {
        seq!['<', '@', '!'] + decimal(id as nat) + seq!['>']
    } else {
        seq!['<', '@'] + decimal(id as nat) + seq!['>']
    }
}

/// The reference to the role `id`.
pub open spec fn role_reference(id: u64) -> Seq<char> {
    seq!['<', '@', '&'] + decimal(id as nat) + seq!['>']
}

/// Whether `text` begins with a reference to a user.
pub open spec fn begins_user_reference(text: Seq<char>) -> bool {
    exists|id: u64, nick: bool| (#[trigger] user_reference(id, nick)).is_prefix_of(text)
}

/// Whether `text` begins with a reference to a role.
pub open spec fn begins_role_reference(text: Seq<char>) -> bool {
    exists|id: u64| (#[trigger] role_reference(id)).is_prefix_of(text)
}

/// What `serenity::utils::content_safe` returns whatever the cache holds, for
/// a call with the switches of `policy`.
///
/// The function copies what stands before the first `<`. It looks into a
/// pair of angle brackets only where `#` or `@` follows the opening one and
/// the switch for that kind of mention is on; a reference to a user or a
/// role that it rewrites becomes a name that begins with `@`. At the end it
/// replaces every `@here` and every `@everyone` where those switches are on.
/// What comes after the first reference is not followed here.
pub open spec fn sanitized(text: Seq<char>, policy: SanitizePolicy, out: Seq<char>) -> bool {
    let open = first_open(text, 0);
    let lead = defused(text.subrange(0, open), policy.clean_here, policy.clean_everyone);
    let at = lead.len() as int;
    &&& policy.clean_here ==> !occurs(out, here_text())
    &&& policy.clean_everyone ==> !occurs(out, everyone_text())
    &&& has_no_at(text) && !policy.clean_channel ==> out == text
    &&& lead.is_prefix_of(out)
    &&& open == text.len() ==> out == lead
    &&& policy.clean_user && begins_user_reference(text.skip(open)) ==> at < out.len() && out[at]
        == '@'
    &&& policy.clean_role && begins_role_reference(text.skip(open)) ==> at < out.len() && out[at]
        == '@'
    &&& !policy.clean_role ==> forall|id: u64|
        (#[trigger] role_reference(id)).is_prefix_of(text.skip(open)) ==> role_reference(
            id,
        ).is_prefix_of(out.skip(at))
}

/// Calls `serenity::utils::content_safe` with options that carry the six
/// switches of `policy` and show users as members of `guild`. What a mention
/// is rewritten to depends on what the cache holds at the moment of the
/// call; claimed is what [`sanitized`] says, which holds of every cache.
#[verifier::external_body]
fn neutralize_in_guild(
    cache: &Cache,
    text: &str,
    policy: &SanitizePolicy,
    guild: u64,
    users: &Vec<User>,
) -> (out: String)
    ensures
        sanitized(text@, *policy, out@),
{
    let options = ContentSafeOptions::new()
        .clean_role(policy.clean_role)
        .clean_user(policy.clean_user)
        .clean_channel(policy.clean_channel)
        .clean_here(policy.clean_here)
        .clean_everyone(policy.clean_everyone)
        .show_discriminator(policy.show_discriminator)
        .display_as_member_from(GuildId(guild));
    content_safe(cache, text, &options, users)
}

/// Calls `serenity::utils::content_safe` with options that carry the six
/// switches of `policy` and name no guild. What a mention is rewritten to
/// depends on what the cache holds at the moment of the call; claimed is
/// what [`sanitized`] says, which holds of every cache.
#[verifier::external_body]
fn neutralize_direct(cache: &Cache, text: &str, policy: &SanitizePolicy, users: &Vec<User>) -> (out:
    String)
    ensures
        sanitized(text@, *policy, out@),
{
    let options = ContentSafeOptions::new()
        .clean_role(policy.clean_role)
        .clean_user(policy.clean_user)
        .clean_channel(policy.clean_channel)
        .clean_here(policy.clean_here)
        .clean_everyone(policy.clean_everyone)
        .show_discriminator(policy.show_discriminator);
    content_safe(cache, text, &options, users)
}

/// The text that `say` sends back: `rest` with its references rewritten
/// under the policy for `guild`. `mentions` are the users that the message
/// mentions; they name a user that the cache does not hold. The reply pings
/// neither everybody nor everybody online, text without `@` is echoed as it
/// is, channel references included, and what [`sanitized`] says of the text
/// up to its first reference holds under the policy of `say`.
pub fn say_reply(cache: &Cache, guild: Option<u64>, rest: &str, mentions: &Vec<User>) -> (reply:
    String)
    ensures
        sanitized(rest@, policy_for(guild), reply@),
        !occurs(reply@, here_text()),
        !occurs(reply@, everyone_text()),
        has_no_at(rest@) ==> reply@ == rest@,
{
    let policy = say_policy(guild);
    match policy.member_display {
        Some(id) => neutralize_in_guild(cache, rest, &policy, id, mentions),
        None => neutralize_direct(cache, rest, &policy, mentions),
    }
}

} // verus!
