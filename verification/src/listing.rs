//! The text of a message as a listing shows it: who wrote it, and what it
//! says, marked where it was edited and followed by its reactions.
use vstd::prelude::*;

use crate::actions::{reactions_view, ReactionsView};
use crate::ids::MemberId;
use crate::joining::first_chars;
use crate::message::{body_public_string, message_id, AuthorizedMessageV1};
use crate::state::{AuthorizedMemberInfo, ChatBoardStateV1};
use crate::text::{concat, decimal, int_to_string};

verus! {

/// The nickname of the first information entry of `author`; where there
/// is none, the first eight characters of the author's id.
pub open spec fn author_label(infos: Seq<AuthorizedMemberInfo>, author: MemberId) -> Seq<char>
    decreases infos.len(),
{
    if infos.len() == 0 {
        first_chars(decimal(author.0.0 as int), 8)
    } else if infos[0].member_info.member_id == author {
        infos[0].member_info.preferred_nickname@
    } else {
        author_label(infos.drop_first(), author)
    }
}

/// One reaction as "emoji×count".
pub open spec fn reaction_part(e: (Seq<char>, Seq<MemberId>)) -> Seq<char> {
    e.0 + "×"@ + decimal(e.1.len() as int)
}

/// The reactions' parts, separated by single spaces.
pub open spec fn reaction_parts(r: ReactionsView) -> Seq<char>
    decreases r.len(),
{
    if r.len() == 0 {
        Seq::empty()
    } else if r.len() == 1 {
        reaction_part(r[0])
    } else {
        reaction_parts(r.drop_last()) + " "@ + reaction_part(r.last())
    }
}

/// " [parts]" for the reactions of a message; nothing where it has none.
pub open spec fn reactions_suffix(r: Option<ReactionsView>) -> Seq<char> {
    match r {
        Some(l) => if l.len() == 0 {
            Seq::empty()
        } else {
            " ["@ + reaction_parts(l) + "]"@
        },
        None => Seq::empty(),
    }
}

fn author_label_exec(infos: &Vec<AuthorizedMemberInfo>, author: MemberId) -> (r: String)
    ensures
        r@ == author_label(infos@, author),
{
    let mut i: usize = 0;
    assert(infos@.subrange(0, infos@.len() as int) =~= infos@);
    while i < infos.len()
        invariant
            i <= infos@.len(),
            author_label(infos@, author) == author_label(infos@.subrange(i as int, infos@.len() as int), author),
        decreases infos.len() - i,
    {
        let ghost rest = infos@.subrange(i as int, infos@.len() as int);
        assert(rest[0] == infos@[i as int]);
        if infos[i].member_info.member_id == author {
            return infos[i].member_info.preferred_nickname.clone();
        }
        assert(rest.drop_first() =~= infos@.subrange(i + 1, infos@.len() as int));
        i = i + 1;
    }
    assert(infos@.subrange(i as int, infos@.len() as int) =~= Seq::<AuthorizedMemberInfo>::empty());
    let text = author.to_display_string();
    let len = text.as_str().unicode_len();
    let end: usize = if len <= 8 {
        len
    } else {
        8
    };
    let short = text.as_str().substring_char(0, end);
    assert(short@ =~= first_chars(decimal(author.0.0 as int), 8));
    short.to_owned()
}

fn reaction_parts_exec(l: &Vec<(String, Vec<MemberId>)>) -> (r: String)
    ensures
        r@ == reaction_parts(reactions_view(l@)),
{
    let ghost v = reactions_view(l@);
    let mut out = String::new();
    let mut i: usize = 0;
    assert(v.subrange(0, 0) =~= Seq::<(Seq<char>, Seq<MemberId>)>::empty());
    while i < l.len()
        invariant
            i <= l@.len(),
            v == reactions_view(l@),
            v.len() == l@.len(),
            out@ == reaction_parts(v.subrange(0, i as int)),
        decreases l.len() - i,
    {
        let ghost next = v.subrange(0, i + 1);
        assert(next.drop_last() =~= v.subrange(0, i as int));
        assert(next.last() == v[i as int]);
        assert(v[i as int] == (l@[i as int].0@, l@[i as int].1@));
        let count = int_to_string(l[i].1.len() as i128);
        let emoji_times = concat(l[i].0.as_str(), "×");
        let part = concat(emoji_times.as_str(), count.as_str());
        proof {
            assert(part@ == reaction_part(v[i as int]));
        }
        if i == 0 {
            assert(next =~= seq![v[0]]);
            out = part;
        } else {
            let spaced = concat(out.as_str(), " ");
            out = concat(spaced.as_str(), part.as_str());
        }
        i = i + 1;
    }
    assert(v.subrange(0, i as int) =~= v);
    out
}

/// Who wrote `msg` and what it says, as a listing shows it: the author's
/// label; and the effective text of the message (its last edit, or its
/// public text; "<encrypted>" where it has neither), then " (edited)"
/// where it was edited, then its reactions.
pub fn output_message_text(board_state: &ChatBoardStateV1, msg: &AuthorizedMessageV1) -> (r: (String, String))
    ensures
        r.0@ == author_label(board_state.member_info.member_info@, msg.message.author),
        ({
            let actions = board_state.recent_messages.actions_state@;
            let key = message_id(msg@).0.0;
            let content = if actions.edited.contains_key(key) {
                actions.edited[key]
            } else {
                match body_public_string(msg@.message.content) {
                    Some(t) => t,
                    None => "<encrypted>"@,
                }
            };
            let edited: Seq<char> = if actions.edited.contains_key(key) {
                " (edited)"@
            } else {
                Seq::empty()
            };
            let reactions = if actions.reactions.contains_key(key) {
                Some(actions.reactions[key])
            } else {
                None
            };
            r.1@ == content + edited + reactions_suffix(reactions)
        }),
{
    let messages = &board_state.recent_messages;
    let content = match messages.effective_text(msg) {
        Some(t) => t,
        None => "<encrypted>".to_owned(),
    };
    let id = msg.id();
    let edited = messages.is_edited(&id);
    let with_mark = if edited {
        concat(content.as_str(), " (edited)")
    } else {
        content
    };
    let reactions_text = match messages.reactions(&id) {
        Some(l) => if l.len() == 0 {
            String::new()
        } else {
            let parts = reaction_parts_exec(l);
            let opened = concat(" [", parts.as_str());
            concat(opened.as_str(), "]")
        },
        None => String::new(),
    };
    let body = concat(with_mark.as_str(), reactions_text.as_str());
    let label = author_label_exec(&board_state.member_info.member_info, msg.message.author);
    (label, body)
}

} // verus!
