use vstd::prelude::*;
use vstd::string::StringExecFns;

use crate::channel::{all_registered, owned_by, resolve_users, ChannelInterface, ChannelView};
use crate::error::DirError;
use crate::user::{User, UserInterface, UserView};

verus! {

/// How a followed channel is listed.
pub open spec fn subscribed_line(c: ChannelView) -> Seq<char> {
    "频道名:"@ + c.name + "\n频道ID:"@ + c.id + "\n"@
}

/// The lines of the channels of `ids` that exist, in order.
pub open spec fn subscribed_lines(ids: Seq<Seq<char>>, chans: Map<Seq<char>, ChannelView>) -> Seq<char>
    decreases ids.len(),
{
    if ids.len() == 0 {
        Seq::empty()
    } else {
        let prev = subscribed_lines(ids.drop_last(), chans);
        if chans.contains_key(ids.last()) {
            prev + subscribed_line(chans[ids.last()])
        } else {
            prev
        }
    }
}

/// Users as listed under a channel: `name(id) ` each.
pub open spec fn users_text(us: Seq<UserView>) -> Seq<char>
    decreases us.len(),
{
    if us.len() == 0 {
        Seq::empty()
    } else {
        users_text(us.drop_last()) + us.last().name + "("@ + us.last().id + ") "@
    }
}

/// The subscribers of channel `id` as listed; empty where the channel or one
/// of its subscribers cannot be found.
pub open spec fn subscribers_text(
    id: Seq<char>,
    chans: Map<Seq<char>, ChannelView>,
    users: Map<Seq<char>, UserView>,
) -> Seq<char> {
    if chans.contains_key(id) && all_registered(chans[id].subscribers, users) {
        users_text(resolve_users(chans[id].subscribers, users))
    } else {
        Seq::empty()
    }
}

/// How an owned channel is listed.
pub open spec fn owned_block(
    c: ChannelView,
    chans: Map<Seq<char>, ChannelView>,
    users: Map<Seq<char>, UserView>,
) -> Seq<char> {
    "频道名:"@ + c.name + "\n频道ID:"@ + c.id + "\nSendKey:"@ + c.sendkey + "\n订阅者:"@
        + subscribers_text(c.id, chans, users) + "\n"@
}

pub open spec fn owned_blocks(
    cs: Seq<ChannelView>,
    chans: Map<Seq<char>, ChannelView>,
    users: Map<Seq<char>, UserView>,
) -> Seq<char>
    decreases cs.len(),
{
    if cs.len() == 0 {
        Seq::empty()
    } else {
        owned_blocks(cs.drop_last(), chans, users) + owned_block(cs.last(), chans, users)
    }
}

/// The channels that `user` follows, as a reply text.
pub fn show_subscribe(users: &UserInterface, channels: &ChannelInterface, user: &str) -> (r: Result<
    String,
    DirError,
>)
    requires
        users.wf(),
        channels.wf(),
    ensures
        !users@.contains_key(user@) ==> r == Err::<String, DirError>(DirError::NotFound),
        users@.contains_key(user@) ==> (r matches Ok(t) && t@ == if users@[user@].subscribes.len() == 0 {
            "没有订阅的频道"@
        } else {
            subscribed_lines(users@[user@].subscribes, channels@)
        }),
{
    let u = match users.get_user(user) {
        Ok(u) => u,
        Err(e) => {
            return Err(e);
        },
    };
    let ghost ids = u@.subscribes;
    if u.subscribes.len() == 0 {
        return Ok("没有订阅的频道".to_owned());
    }
    let mut r = String::new();
    let mut i: usize = 0;
    while i < u.subscribes.len()
        invariant
            channels.wf(),
            ids == u@.subscribes,
            0 <= i <= ids.len(),
            r@ == subscribed_lines(ids.subrange(0, i as int), channels@),
        decreases ids.len() - i,
    {
        assert(ids.subrange(0, i + 1).drop_last() =~= ids.subrange(0, i as int));
        assert(ids.subrange(0, i + 1).last() == ids[i as int]);
        assert(u.subscribes@[i as int]@ == ids[i as int]);
        match channels.get_channel_by_id(u.subscribes[i].as_str()) {
            Ok(chn) => {
                r.append("频道名:");
                r.append(chn.name.as_str());
                r.append("\n频道ID:");
                r.append(chn.id.as_str());
                r.append("\n");
            },
            Err(_) => {},
        }
        i = i + 1;
    }
    assert(ids.subrange(0, ids.len() as int) =~= ids);
    Ok(r)
}

/// The users of `us`, as listed under a channel.
fn append_users(r: &mut String, us: &Vec<User>)
    ensures
        final(r)@ == old(r)@ + users_text(us@.map_values(|u: User| u@)),
{
    let ghost vs = us@.map_values(|u: User| u@);
    let mut i: usize = 0;
    assert(vs.subrange(0, 0) =~= Seq::<UserView>::empty());
    assert(r@ =~= old(r)@ + users_text(vs.subrange(0, 0)));
    while i < us.len()
        invariant
            vs == us@.map_values(|u: User| u@),
            0 <= i <= us.len(),
            r@ == old(r)@ + users_text(vs.subrange(0, i as int)),
        decreases us.len() - i,
    {
        assert(vs.subrange(0, i + 1).drop_last() =~= vs.subrange(0, i as int));
        assert(vs.subrange(0, i + 1).last() == us@[i as int]@);
        r.append(us[i].name.as_str());
        r.append("(");
        r.append(us[i].id.as_str());
        r.append(") ");
        assert(r@ =~= old(r)@ + users_text(vs.subrange(0, i + 1)));
        i = i + 1;
    }
    assert(vs.subrange(0, us.len() as int) =~= vs);
}

/// The channels that `owner` owns, each with its publish key and
/// subscribers, as a reply text.
pub fn show_channel(users: &UserInterface, channels: &ChannelInterface, owner: &str) -> (r: String)
    requires
        users.wf(),
        channels.wf(),
    ensures
        ({
            let cs = owned_by(channels.scan_order(), channels@, owner@);
            r@ == if cs.len() == 0 {
                "没有创建的频道"@
            } else {
                owned_blocks(cs, channels@, users@)
            }
        }),
{
    let list = match channels.get_channel_by_owner(owner) {
        Ok(list) => list,
        Err(_) => Vec::new(),
    };
    let ghost cs = list@.map_values(|c: crate::channel::Channel| c@);
    if list.len() == 0 {
        return "没有创建的频道".to_owned();
    }
    let mut r = String::new();
    let mut i: usize = 0;
    while i < list.len()
        invariant
            users.wf(),
            channels.wf(),
            cs == list@.map_values(|c: crate::channel::Channel| c@),
            0 <= i <= cs.len(),
            r@ == owned_blocks(cs.subrange(0, i as int), channels@, users@),
        decreases cs.len() - i,
    {
        assert(cs.subrange(0, i + 1).drop_last() =~= cs.subrange(0, i as int));
        assert(cs.subrange(0, i + 1).last() == list@[i as int]@);
        let c = &list[i];
        let ghost before = r@;
        r.append("频道名:");
        r.append(c.name.as_str());
        r.append("\n频道ID:");
        r.append(c.id.as_str());
        r.append("\nSendKey:");
        r.append(c.sendkey.as_str());
        r.append("\n订阅者:");
        let ghost mid = r@;
        match channels.get_subscribers(users, c.id.as_str()) {
            Ok(us) => {
                append_users(&mut r, &us);
                proof {
                    if !all_registered(channels@[c@.id].subscribers, users@) {
                        let j = choose|j: int|
                            0 <= j < channels@[c@.id].subscribers.len() && !users@.contains_key(
                                #[trigger] channels@[c@.id].subscribers[j],
                            );
                    }
                }
            },
            Err(_) => {
                assert(r@ =~= mid + Seq::<char>::empty());
            },
        }
        r.append("\n");
        assert(r@ =~= before + owned_block(c@, channels@, users@));
        i = i + 1;
    }
    assert(cs.subrange(0, cs.len() as int) =~= cs);
    r
}

} // verus!
