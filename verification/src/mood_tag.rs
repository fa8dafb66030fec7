//! Mood tags a journal entry can carry, with their display names, emoji and
//! name-based lookup.
use vstd::prelude::*;

use crate::text::{chars_of, contains_chars, lower_chars, spec_contains, to_lower_chars};

verus! {

/// One mood a user can attach to a journal entry.
#[derive(Debug, Clone, Copy, PartialEq, Eq, Structural, Hash)]
pub enum MoodTag {
    // Happy category
    Happy,
    Caring,
    Grateful,
    Excited,
    // Sad category
    Sad,
    Lonely,
    Hurt,
    Disappointed,
    // Loved category
    Loved,
    Respected,
    Valued,
    Accepted,
    // Confident category
    Confident,
    Brave,
    Hopeful,
    Powerful,
    // Playful category
    Playful,
    Creative,
    Curious,
    Affectionate,
    // Embarrassed category
    Embarrassed,
    Ashamed,
    Excluded,
    Guilty,
    // Angry category
    Angry,
    Bored,
    Jealous,
    Annoyed,
    // Scared category
    Scared,
    Anxious,
    Powerless,
    Overwhelmed,
}

/// Display name of a mood, as a character sequence.
pub open spec fn spec_mood_name(m: MoodTag) -> Seq<char> {
    match m {
        MoodTag::Happy => "Happy"@,
        MoodTag::Caring => "Caring"@,
        MoodTag::Grateful => "Grateful"@,
        MoodTag::Excited => "Excited"@,
        MoodTag::Sad => "Sad"@,
        MoodTag::Lonely => "Lonely"@,
        MoodTag::Hurt => "Hurt"@,
        MoodTag::Disappointed => "Disappointed"@,
        MoodTag::Loved => "Loved"@,
        MoodTag::Respected => "Respected"@,
        MoodTag::Valued => "Valued"@,
        MoodTag::Accepted => "Accepted"@,
        MoodTag::Confident => "Confident"@,
        MoodTag::Brave => "Brave"@,
        MoodTag::Hopeful => "Hopeful"@,
        MoodTag::Powerful => "Powerful"@,
        MoodTag::Playful => "Playful"@,
        MoodTag::Creative => "Creative"@,
        MoodTag::Curious => "Curious"@,
        MoodTag::Affectionate => "Affectionate"@,
        MoodTag::Embarrassed => "Embarrassed"@,
        MoodTag::Ashamed => "Ashamed"@,
        MoodTag::Excluded => "Excluded"@,
        MoodTag::Guilty => "Guilty"@,
        MoodTag::Angry => "Angry"@,
        MoodTag::Bored => "Bored"@,
        MoodTag::Jealous => "Jealous"@,
        MoodTag::Annoyed => "Annoyed"@,
        MoodTag::Scared => "Scared"@,
        MoodTag::Anxious => "Anxious"@,
        MoodTag::Powerless => "Powerless"@,
        MoodTag::Overwhelmed => "Overwhelmed"@,
    }
}

/// Emoji shown beside a mood, as a character sequence.
pub open spec fn spec_mood_emoji(m: MoodTag) -> Seq<char> {
    match m {
        MoodTag::Happy => "😃"@,
        MoodTag::Caring => "💓"@,
        MoodTag::Grateful => "🙇"@,
        MoodTag::Excited => "😆"@,
        MoodTag::Sad => "😢"@,
        MoodTag::Lonely => "🚫🍺"@,
        MoodTag::Hurt => "😧"@,
        MoodTag::Disappointed => "😞"@,
        MoodTag::Loved => "😍"@,
        MoodTag::Respected => "🚩"@,
        MoodTag::Valued => "💲🙂"@,
        MoodTag::Accepted => "👍"@,
        MoodTag::Confident => "😎"@,
        MoodTag::Brave => "🦸"@,
        MoodTag::Hopeful => "✌️"@,
        MoodTag::Powerful => "💪"@,
        MoodTag::Playful => "⛹️"@,
        MoodTag::Creative => "🎨"@,
        MoodTag::Curious => "🐈"@,
        MoodTag::Affectionate => "💌"@,
        MoodTag::Embarrassed => "😳"@,
        MoodTag::Ashamed => "😞"@,
        MoodTag::Excluded => "🙅"@,
        MoodTag::Guilty => "😰"@,
        MoodTag::Angry => "😠"@,
        MoodTag::Bored => "😐"@,
        MoodTag::Jealous => "😒"@,
        MoodTag::Annoyed => "🙄"@,
        MoodTag::Scared => "😰"@,
        MoodTag::Anxious => "😓"@,
        MoodTag::Powerless => "🚫⚡️"@,
        MoodTag::Overwhelmed => "😬"@,
    }
}

/// Every mood has an emoji: the table never hands back an empty text.
pub proof fn lemma_mood_emoji_nonempty(m: MoodTag)
    ensures
        spec_mood_emoji(m).len() > 0,
{
    reveal_strlit("😃");
    reveal_strlit("💓");
    reveal_strlit("🙇");
    reveal_strlit("😆");
    reveal_strlit("😢");
    reveal_strlit("🚫🍺");
    reveal_strlit("😧");
    reveal_strlit("😞");
    reveal_strlit("😍");
    reveal_strlit("🚩");
    reveal_strlit("💲🙂");
    reveal_strlit("👍");
    reveal_strlit("😎");
    reveal_strlit("🦸");
    reveal_strlit("✌️");
    reveal_strlit("💪");
    reveal_strlit("⛹️");
    reveal_strlit("🎨");
    reveal_strlit("🐈");
    reveal_strlit("💌");
    reveal_strlit("😳");
    reveal_strlit("🙅");
    reveal_strlit("😰");
    reveal_strlit("😠");
    reveal_strlit("😐");
    reveal_strlit("😒");
    reveal_strlit("🙄");
    reveal_strlit("😓");
    reveal_strlit("🚫⚡️");
    reveal_strlit("😬");
}

/// All moods, in declaration order; name lookup scans them in this order.
pub open spec fn spec_mood_order() -> Seq<MoodTag> {
    seq![
        MoodTag::Happy,
        MoodTag::Caring,
        MoodTag::Grateful,
        MoodTag::Excited,
        MoodTag::Sad,
        MoodTag::Lonely,
        MoodTag::Hurt,
        MoodTag::Disappointed,
        MoodTag::Loved,
        MoodTag::Respected,
        MoodTag::Valued,
        MoodTag::Accepted,
        MoodTag::Confident,
        MoodTag::Brave,
        MoodTag::Hopeful,
        MoodTag::Powerful,
        MoodTag::Playful,
        MoodTag::Creative,
        MoodTag::Curious,
        MoodTag::Affectionate,
        MoodTag::Embarrassed,
        MoodTag::Ashamed,
        MoodTag::Excluded,
        MoodTag::Guilty,
        MoodTag::Angry,
        MoodTag::Bored,
        MoodTag::Jealous,
        MoodTag::Annoyed,
        MoodTag::Scared,
        MoodTag::Anxious,
        MoodTag::Powerless,
        MoodTag::Overwhelmed,
    ]
}

/// True when the lower-cased name of `m` contains the already lower-cased
/// search term.
pub open spec fn spec_mood_matches(m: MoodTag, lowered_term: Seq<char>) -> bool {
    spec_contains(lower_chars(spec_mood_name(m)), lowered_term)
}

/// First mood of `order` whose lower-cased name contains the lower-cased
/// search term, if any.
pub open spec fn spec_find_mood(order: Seq<MoodTag>, lowered_term: Seq<char>) -> Option<MoodTag>
    decreases order.len(),
{
    if order.len() == 0 {
        None
    } else if spec_mood_matches(order[0], lowered_term) {
        Some(order[0])
    } else {
        spec_find_mood(order.drop_first(), lowered_term)
    }
}

/// All moods, in declaration order.
pub fn all_moods() -> (r: Vec<MoodTag>)
    ensures
        r@ == spec_mood_order(),
{
    let mut v: Vec<MoodTag> = Vec::new();
    v.push(MoodTag::Happy);
    v.push(MoodTag::Caring);
    v.push(MoodTag::Grateful);
    v.push(MoodTag::Excited);
    v.push(MoodTag::Sad);
    v.push(MoodTag::Lonely);
    v.push(MoodTag::Hurt);
    v.push(MoodTag::Disappointed);
    v.push(MoodTag::Loved);
    v.push(MoodTag::Respected);
    v.push(MoodTag::Valued);
    v.push(MoodTag::Accepted);
    v.push(MoodTag::Confident);
    v.push(MoodTag::Brave);
    v.push(MoodTag::Hopeful);
    v.push(MoodTag::Powerful);
    v.push(MoodTag::Playful);
    v.push(MoodTag::Creative);
    v.push(MoodTag::Curious);
    v.push(MoodTag::Affectionate);
    v.push(MoodTag::Embarrassed);
    v.push(MoodTag::Ashamed);
    v.push(MoodTag::Excluded);
    v.push(MoodTag::Guilty);
    v.push(MoodTag::Angry);
    v.push(MoodTag::Bored);
    v.push(MoodTag::Jealous);
    v.push(MoodTag::Annoyed);
    v.push(MoodTag::Scared);
    v.push(MoodTag::Anxious);
    v.push(MoodTag::Powerless);
    v.push(MoodTag::Overwhelmed);
    proof {
        assert(v@ =~= spec_mood_order());
    }
    v
}

impl MoodTag {
    /// Display name of this mood.
    pub fn get_text(&self) -> (r: String)
        ensures
            r@ == spec_mood_name(*self),
    {
        match self {
            MoodTag::Happy => "Happy".to_owned(),
            MoodTag::Caring => "Caring".to_owned(),
            MoodTag::Grateful => "Grateful".to_owned(),
            MoodTag::Excited => "Excited".to_owned(),
            MoodTag::Sad => "Sad".to_owned(),
            MoodTag::Lonely => "Lonely".to_owned(),
            MoodTag::Hurt => "Hurt".to_owned(),
            MoodTag::Disappointed => "Disappointed".to_owned(),
            MoodTag::Loved => "Loved".to_owned(),
            MoodTag::Respected => "Respected".to_owned(),
            MoodTag::Valued => "Valued".to_owned(),
            MoodTag::Accepted => "Accepted".to_owned(),
            MoodTag::Confident => "Confident".to_owned(),
            MoodTag::Brave => "Brave".to_owned(),
            MoodTag::Hopeful => "Hopeful".to_owned(),
            MoodTag::Powerful => "Powerful".to_owned(),
            MoodTag::Playful => "Playful".to_owned(),
            MoodTag::Creative => "Creative".to_owned(),
            MoodTag::Curious => "Curious".to_owned(),
            MoodTag::Affectionate => "Affectionate".to_owned(),
            MoodTag::Embarrassed => "Embarrassed".to_owned(),
            MoodTag::Ashamed => "Ashamed".to_owned(),
            MoodTag::Excluded => "Excluded".to_owned(),
            MoodTag::Guilty => "Guilty".to_owned(),
            MoodTag::Angry => "Angry".to_owned(),
            MoodTag::Bored => "Bored".to_owned(),
            MoodTag::Jealous => "Jealous".to_owned(),
            MoodTag::Annoyed => "Annoyed".to_owned(),
            MoodTag::Scared => "Scared".to_owned(),
            MoodTag::Anxious => "Anxious".to_owned(),
            MoodTag::Powerless => "Powerless".to_owned(),
            MoodTag::Overwhelmed => "Overwhelmed".to_owned(),
        }
    }

    /// Emoji shown beside this mood.
    pub fn get_emoji_text(&self) -> (r: &'static str)
        ensures
            r@ == spec_mood_emoji(*self),
    {
        match self {
            MoodTag::Happy => "😃",
            MoodTag::Caring => "💓",
            MoodTag::Grateful => "🙇",
            MoodTag::Excited => "😆",
            MoodTag::Sad => "😢",
            MoodTag::Lonely => "🚫🍺",
            MoodTag::Hurt => "😧",
            MoodTag::Disappointed => "😞",
            MoodTag::Loved => "😍",
            MoodTag::Respected => "🚩",
            MoodTag::Valued => "💲🙂",
            MoodTag::Accepted => "👍",
            MoodTag::Confident => "😎",
            MoodTag::Brave => "🦸",
            MoodTag::Hopeful => "✌️",
            MoodTag::Powerful => "💪",
            MoodTag::Playful => "⛹️",
            MoodTag::Creative => "🎨",
            MoodTag::Curious => "🐈",
            MoodTag::Affectionate => "💌",
            MoodTag::Embarrassed => "😳",
            MoodTag::Ashamed => "😞",
            MoodTag::Excluded => "🙅",
            MoodTag::Guilty => "😰",
            MoodTag::Angry => "😠",
            MoodTag::Bored => "😐",
            MoodTag::Jealous => "😒",
            MoodTag::Annoyed => "🙄",
            MoodTag::Scared => "😰",
            MoodTag::Anxious => "😓",
            MoodTag::Powerless => "🚫⚡️",
            MoodTag::Overwhelmed => "😬",
        }
    }

    /// Finds the first mood (in declaration order) whose lower-cased name
    /// contains the lower-cased search text.
    pub fn get_mood_by_name(text: &str) -> (r: Option<MoodTag>)
        ensures
            r == spec_find_mood(spec_mood_order(), lower_chars(text@)),
    {
        let raw = chars_of(text);
        let term = to_lower_chars(&raw);
        let order = all_moods();
        proof {
            assert(spec_mood_order().skip(0) =~= spec_mood_order());
        }
        let mut i: usize = 0;
        while i < order.len()
            invariant
                order@ == spec_mood_order(),
                term@ == lower_chars(text@),
                i <= order@.len(),
                spec_find_mood(spec_mood_order(), lower_chars(text@)) == spec_find_mood(
                    spec_mood_order().skip(i as int),
                    lower_chars(text@),
                ),
            decreases order.len() - i,
        {
            let m = order[i];
            let name = m.get_text();
            let name_chars = chars_of(name.as_str());
            let lowered_name = to_lower_chars(&name_chars);
            let hit = contains_chars(&lowered_name, &term);
            proof {
                assert(spec_mood_order().skip(i as int)[0] == m);
                assert(spec_mood_order().skip(i as int).drop_first() =~= spec_mood_order().skip(
                    i + 1,
                ));
            }
            if hit {
                return Some(m);
            }
            i = i + 1;
        }
        proof {
            assert(spec_mood_order().skip(spec_mood_order().len() as int) =~= Seq::<
                MoodTag,
            >::empty());
        }
        None
    }
}

} // verus!
