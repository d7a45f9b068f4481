use vstd::prelude::*;
use crate::text::str_equals;

verus! {

/// An emblem whose awakening the timer tracks: its buff key, how long the awakening
/// lasts (seconds) and its name.
#[derive(Clone, Copy, Debug)]
pub struct EmblemInfo {
    pub buff_key: u32,
    pub duration_secs: u64,
    pub name: &'static str,
}

/// Duration (seconds) and name of the emblem with buff key `k`, if it is one of the known
/// emblems.
pub open spec fn emblem_info(k: u32) -> Option<(u64, Seq<char>)> {
    if k == 122806656 {
        Some((20u64, "대마법사"@))
    } else if k == 122806657 {
        Some((20u64, "무자비한 포식자"@))
    } else if k == 122806658 {
        Some((20u64, "녹아내린 대지"@))
    } else if k == 355098955 {
        Some((35u64, "흩날리는 검"@))
    } else if k == 1184371696 {
        Some((35u64, "갈라진 땅"@))
    } else if k == 1590198662 {
        Some((20u64, "아득한 빛"@))
    } else if k == 1703435864 {
        Some((20u64, "부서진 하늘"@))
    } else if k == 2024838942 {
        Some((20u64, "산맥 군주"@))
    } else {
        None
    }
}

/// The emblem with the given buff key, if it is a known one.
pub fn find_emblem_by_buff_key(buff_key: u32) -> (info: Option<EmblemInfo>)
    ensures
        match info {
            Some(e) => e.buff_key == buff_key && emblem_info(buff_key) == Some((e.duration_secs, e.name@)),
            None => emblem_info(buff_key) is None,
        },
{
    if buff_key == 122806656 {
        Some(EmblemInfo { buff_key, duration_secs: 20, name: "대마법사" })
    } else if buff_key == 122806657 {
        Some(EmblemInfo { buff_key, duration_secs: 20, name: "무자비한 포식자" })
    } else if buff_key == 122806658 {
        Some(EmblemInfo { buff_key, duration_secs: 20, name: "녹아내린 대지" })
    } else if buff_key == 355098955 {
        Some(EmblemInfo { buff_key, duration_secs: 35, name: "흩날리는 검" })
    } else if buff_key == 1184371696 {
        Some(EmblemInfo { buff_key, duration_secs: 35, name: "갈라진 땅" })
    } else if buff_key == 1590198662 {
        Some(EmblemInfo { buff_key, duration_secs: 20, name: "아득한 빛" })
    } else if buff_key == 1703435864 {
        Some(EmblemInfo { buff_key, duration_secs: 20, name: "부서진 하늘" })
    } else if buff_key == 2024838942 {
        Some(EmblemInfo { buff_key, duration_secs: 20, name: "산맥 군주" })
    } else {
        None
    }
}

/// Awakening cooldown (seconds) for a Blind Seer rune setting: "base" 52, "plus" 51,
/// "plusplus" 50, anything else (no rune) 90.
pub open spec fn cooldown_secs(blind_seer: Seq<char>) -> u64 {
    if blind_seer == "base"@ {
        52
    } else if blind_seer == "plus"@ {
        51
    } else if blind_seer == "plusplus"@ {
        50
    } else {
        90
    }
}

/// The awakening cooldown (seconds) for a Blind Seer rune setting.
pub fn compute_cooldown(blind_seer: &str) -> (secs: u64)
    ensures
        secs == cooldown_secs(blind_seer@),
{
    if str_equals(blind_seer, "base") {
        52
    } else if str_equals(blind_seer, "plus") {
        51
    } else if str_equals(blind_seer, "plusplus") {
        50
    } else {
        90
    }
}

/// Every emblem that a BUFF_START entry can name is one the timer knows.
pub proof fn lemma_field_keys_are_known_emblems(b0: u8, b1: u8, b2: u8, b3: u8)
    ensures
        crate::capture::emblem_key_of_field(b0, b1, b2, b3) matches Some(k) ==> emblem_info(k) is Some,
{
}

/// The emblem table: each known buff key with its duration (seconds) and name. No two
/// emblems share a name.
pub proof fn lemma_emblem_table()
    ensures
        emblem_info(122806656) == Some((20u64, "대마법사"@)),
        emblem_info(122806657) == Some((20u64, "무자비한 포식자"@)),
        emblem_info(122806658) == Some((20u64, "녹아내린 대지"@)),
        emblem_info(355098955) == Some((35u64, "흩날리는 검"@)),
        emblem_info(1184371696) == Some((35u64, "갈라진 땅"@)),
        emblem_info(1590198662) == Some((20u64, "아득한 빛"@)),
        emblem_info(1703435864) == Some((20u64, "부서진 하늘"@)),
        emblem_info(2024838942) == Some((20u64, "산맥 군주"@)),
        forall|k1: u32, k2: u32|
            k1 != k2 && #[trigger] emblem_info(k1) is Some && #[trigger] emblem_info(k2) is Some
                ==> emblem_info(k1).unwrap().1 != emblem_info(k2).unwrap().1,
{
    reveal_strlit("대마법사");
    reveal_strlit("무자비한 포식자");
    reveal_strlit("녹아내린 대지");
    reveal_strlit("흩날리는 검");
    reveal_strlit("갈라진 땅");
    reveal_strlit("아득한 빛");
    reveal_strlit("부서진 하늘");
    reveal_strlit("산맥 군주");
    assert forall|k1: u32, k2: u32|
        k1 != k2 && #[trigger] emblem_info(k1) is Some && #[trigger] emblem_info(k2) is Some
            implies emblem_info(k1).unwrap().1 != emblem_info(k2).unwrap().1 by {
        assert(emblem_info(k1).unwrap().1[0] != emblem_info(k2).unwrap().1[0]);
    }
}

/// The Blind Seer cooldowns: "base" 52 s, "plus" 51 s, "plusplus" 50 s, and 90 s for any
/// other setting.
pub proof fn lemma_cooldown_table(blind_seer: Seq<char>)
    ensures
        cooldown_secs("base"@) == 52,
        cooldown_secs("plus"@) == 51,
        cooldown_secs("plusplus"@) == 50,
        blind_seer != "base"@ && blind_seer != "plus"@ && blind_seer != "plusplus"@ ==> cooldown_secs(blind_seer) == 90,
{
    reveal_strlit("base");
    reveal_strlit("plus");
    reveal_strlit("plusplus");
    assert("plus"@[0] != "base"@[0]);
    assert("plusplus"@.len() != "base"@.len());
    assert("plusplus"@.len() != "plus"@.len());
}

/// The BUFF_START field patterns and the emblems they name: each pattern's buff key is the
/// emblem of that name.
pub proof fn lemma_field_patterns_name_emblems()
    ensures
        crate::capture::emblem_key_of_field(0x9E, 0x5A, 0x0D, 0x72) == Some(122806656u32),
        crate::capture::emblem_key_of_field(0xA8, 0x0F, 0x5F, 0x44) == Some(122806657u32),
        crate::capture::emblem_key_of_field(0xCA, 0x1A, 0x9C, 0x5F) == Some(122806658u32),
        crate::capture::emblem_key_of_field(0x86, 0x81, 0xC8, 0x5E) == Some(1590198662u32),
        crate::capture::emblem_key_of_field(0x4B, 0x61, 0x2A, 0x15) == Some(355098955u32),
        crate::capture::emblem_key_of_field(0xF0, 0x13, 0x98, 0x46) == Some(1184371696u32),
        crate::capture::emblem_key_of_field(0x58, 0x5E, 0x88, 0x65) == Some(1703435864u32),
        crate::capture::emblem_key_of_field(0x1E, 0x97, 0xB0, 0x78) == Some(2024838942u32),
        emblem_info(1590198662).unwrap().1 == "아득한 빛"@,
        emblem_info(355098955).unwrap().1 == "흩날리는 검"@,
{
    lemma_emblem_table();
}

} // verus!
