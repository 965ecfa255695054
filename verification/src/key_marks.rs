//! Marks by which the keys of things are told apart.
use vstd::prelude::*;

verus! {

/// The length of a key and three of its characters, as one number.
#[verifier::opaque]
pub open spec fn mark(key: Seq<char>) -> int {
    let n = key.len() as int;
    ((n * 128 + key[2] as int) * 128 + key[n / 2] as int) * 128 + key[n - 1] as int
}

/// The marks of the consumables.
pub proof fn lemma_consumable_marks()
    ensures
        mark("c_ankh"@) == 14186344,
        mark("c_aura"@) == 14187233,
        mark("c_black_hole"@) == 26785253,
        mark("c_ceres"@) == 16315123,
        mark("c_chariot"@) == 20508916,
        mark("c_cryptid"@) == 20511972,
        mark("c_death"@) == 16331496,
        mark("c_deja_vu"@) == 20526453,
        mark("c_devil"@) == 16331500,
        mark("c_earth"@) == 16347368,
        mark("c_ectoplasm"@) == 24737773,
        mark("c_emperor"@) == 20543602,
        mark("c_empress"@) == 20543603,
        mark("c_eris"@) == 14252403,
        mark("c_familiar"@) == 22656242,
        mark("c_fool"@) == 14268396,
        mark("c_grim"@) == 14285165,
        mark("c_hanged_man"@) == 26882798,
        mark("c_heirophant"@) == 26884084,
        mark("c_hermit"@) == 18495860,
        mark("c_hex"@) == 12203128,
        mark("c_high_priestess"@) == 35273075,
        mark("c_immolate"@) == 22706149,
        mark("c_incantation"@) == 28997486,
        mark("c_judgement"@) == 24818676,
        mark("c_jupiter"@) == 20625522,
        mark("c_justice"@) == 20625893,
        mark("c_lovers"@) == 18561907,
        mark("c_magician"@) == 22770926,
        mark("c_mars"@) == 14381299,
        mark("c_medium"@) == 18575981,
        mark("c_mercury"@) == 20674937,
        mark("c_moon"@) == 14383086,
        mark("c_neptune"@) == 20691045,
        mark("c_ouija"@) == 16513761,
        mark("c_planet_x"@) == 22820728,
        mark("c_pluto"@) == 16529007,
        mark("c_saturn"@) == 18676334,
        mark("c_sigil"@) == 16577772,
        mark("c_soul"@) == 14481388,
        mark("c_star"@) == 14482034,
        mark("c_strength"@) == 22868712,
        mark("c_sun"@) == 12384750,
        mark("c_talisman"@) == 22885614,
        mark("c_temperance"@) == 27079397,
        mark("c_tower"@) == 16594930,
        mark("c_trance"@) == 18690277,
        mark("c_uranus"@) == 18706675,
        mark("c_venus"@) == 16626419,
        mark("c_wheel_of_fortune"@) == 39711589,
        mark("c_world"@) == 16644068,
        mark("c_wraith"@) == 18739432,
{
    lemma_consumable_marks_1();
    lemma_consumable_marks_2();
    lemma_consumable_marks_3();
    lemma_consumable_marks_4();
}

proof fn lemma_consumable_marks_1()
    ensures
        mark("c_ankh"@) == 14186344,
        mark("c_aura"@) == 14187233,
        mark("c_black_hole"@) == 26785253,
        mark("c_ceres"@) == 16315123,
        mark("c_chariot"@) == 20508916,
        mark("c_cryptid"@) == 20511972,
        mark("c_death"@) == 16331496,
        mark("c_deja_vu"@) == 20526453,
        mark("c_devil"@) == 16331500,
        mark("c_earth"@) == 16347368,
        mark("c_ectoplasm"@) == 24737773,
        mark("c_emperor"@) == 20543602,
        mark("c_empress"@) == 20543603,
{
    reveal(mark);
    reveal_strlit("c_ankh");
    reveal_strlit("c_aura");
    reveal_strlit("c_black_hole");
    reveal_strlit("c_ceres");
    reveal_strlit("c_chariot");
    reveal_strlit("c_cryptid");
    reveal_strlit("c_death");
    reveal_strlit("c_deja_vu");
    reveal_strlit("c_devil");
    reveal_strlit("c_earth");
    reveal_strlit("c_ectoplasm");
    reveal_strlit("c_emperor");
    reveal_strlit("c_empress");
}

proof fn lemma_consumable_marks_2()
    ensures
        mark("c_eris"@) == 14252403,
        mark("c_familiar"@) == 22656242,
        mark("c_fool"@) == 14268396,
        mark("c_grim"@) == 14285165,
        mark("c_hanged_man"@) == 26882798,
        mark("c_heirophant"@) == 26884084,
        mark("c_hermit"@) == 18495860,
        mark("c_hex"@) == 12203128,
        mark("c_high_priestess"@) == 35273075,
        mark("c_immolate"@) == 22706149,
        mark("c_incantation"@) == 28997486,
        mark("c_judgement"@) == 24818676,
        mark("c_jupiter"@) == 20625522,
{
    reveal(mark);
    reveal_strlit("c_eris");
    reveal_strlit("c_familiar");
    reveal_strlit("c_fool");
    reveal_strlit("c_grim");
    reveal_strlit("c_hanged_man");
    reveal_strlit("c_heirophant");
    reveal_strlit("c_hermit");
    reveal_strlit("c_hex");
    reveal_strlit("c_high_priestess");
    reveal_strlit("c_immolate");
    reveal_strlit("c_incantation");
    reveal_strlit("c_judgement");
    reveal_strlit("c_jupiter");
}

proof fn lemma_consumable_marks_3()
    ensures
        mark("c_justice"@) == 20625893,
        mark("c_lovers"@) == 18561907,
        mark("c_magician"@) == 22770926,
        mark("c_mars"@) == 14381299,
        mark("c_medium"@) == 18575981,
        mark("c_mercury"@) == 20674937,
        mark("c_moon"@) == 14383086,
        mark("c_neptune"@) == 20691045,
        mark("c_ouija"@) == 16513761,
        mark("c_planet_x"@) == 22820728,
        mark("c_pluto"@) == 16529007,
        mark("c_saturn"@) == 18676334,
        mark("c_sigil"@) == 16577772,
{
    reveal(mark);
    reveal_strlit("c_justice");
    reveal_strlit("c_lovers");
    reveal_strlit("c_magician");
    reveal_strlit("c_mars");
    reveal_strlit("c_medium");
    reveal_strlit("c_mercury");
    reveal_strlit("c_moon");
    reveal_strlit("c_neptune");
    reveal_strlit("c_ouija");
    reveal_strlit("c_planet_x");
    reveal_strlit("c_pluto");
    reveal_strlit("c_saturn");
    reveal_strlit("c_sigil");
}

proof fn lemma_consumable_marks_4()
    ensures
        mark("c_soul"@) == 14481388,
        mark("c_star"@) == 14482034,
        mark("c_strength"@) == 22868712,
        mark("c_sun"@) == 12384750,
        mark("c_talisman"@) == 22885614,
        mark("c_temperance"@) == 27079397,
        mark("c_tower"@) == 16594930,
        mark("c_trance"@) == 18690277,
        mark("c_uranus"@) == 18706675,
        mark("c_venus"@) == 16626419,
        mark("c_wheel_of_fortune"@) == 39711589,
        mark("c_world"@) == 16644068,
        mark("c_wraith"@) == 18739432,
{
    reveal(mark);
    reveal_strlit("c_soul");
    reveal_strlit("c_star");
    reveal_strlit("c_strength");
    reveal_strlit("c_sun");
    reveal_strlit("c_talisman");
    reveal_strlit("c_temperance");
    reveal_strlit("c_tower");
    reveal_strlit("c_trance");
    reveal_strlit("c_uranus");
    reveal_strlit("c_venus");
    reveal_strlit("c_wheel_of_fortune");
    reveal_strlit("c_world");
    reveal_strlit("c_wraith");
}

/// The marks of the vouchers.
pub proof fn lemma_voucher_marks()
    ensures
        mark("v_antimatter"@) == 26769138,
        mark("v_blank"@) == 16299627,
        mark("v_clearance_sale"@) == 35190629,
        mark("v_crystal_ball"@) == 30994668,
        mark("v_directors_cut"@) == 33110644,
        mark("v_glow_up"@) == 20576240,
        mark("v_grabber"@) == 20574450,
        mark("v_hieroglyph"@) == 26884072,
        mark("v_hone"@) == 14301157,
        mark("v_illusion"@) == 22706926,
        mark("v_liquidation"@) == 29045998,
        mark("v_magic_trick"@) == 29061611,
        mark("v_money_tree"@) == 26967269,
        mark("v_nacho_tong"@) == 26982375,
        mark("v_observatory"@) == 29096313,
        mark("v_omen_globe"@) == 26996709,
        mark("v_overstock_norm"@) == 35387373,
        mark("v_overstock_plus"@) == 35387379,
        mark("v_paint_brush"@) == 29112936,
        mark("v_palette"@) == 20723301,
        mark("v_petroglyph"@) == 27015144,
        mark("v_planet_merchant"@) == 37498868,
        mark("v_planet_tycoon"@) == 33307246,
        mark("v_recyclomancy"@) == 31241849,
        mark("v_reroll_glut"@) == 29144692,
        mark("v_reroll_surplus"@) == 35434483,
        mark("v_retcon"@) == 18659950,
        mark("v_seed_money"@) == 27062265,
        mark("v_tarot_merchant"@) == 35469044,
        mark("v_tarot_tycoon"@) == 31272942,
        mark("v_telescope"@) == 24982245,
        mark("v_wasteful"@) == 22936172,
{
    lemma_voucher_marks_1();
    lemma_voucher_marks_2();
    lemma_voucher_marks_3();
}

proof fn lemma_voucher_marks_1()
    ensures
        mark("v_antimatter"@) == 26769138,
        mark("v_blank"@) == 16299627,
        mark("v_clearance_sale"@) == 35190629,
        mark("v_crystal_ball"@) == 30994668,
        mark("v_directors_cut"@) == 33110644,
        mark("v_glow_up"@) == 20576240,
        mark("v_grabber"@) == 20574450,
        mark("v_hieroglyph"@) == 26884072,
        mark("v_hone"@) == 14301157,
        mark("v_illusion"@) == 22706926,
        mark("v_liquidation"@) == 29045998,
        mark("v_magic_trick"@) == 29061611,
        mark("v_money_tree"@) == 26967269,
{
    reveal(mark);
    reveal_strlit("v_antimatter");
    reveal_strlit("v_blank");
    reveal_strlit("v_clearance_sale");
    reveal_strlit("v_crystal_ball");
    reveal_strlit("v_directors_cut");
    reveal_strlit("v_glow_up");
    reveal_strlit("v_grabber");
    reveal_strlit("v_hieroglyph");
    reveal_strlit("v_hone");
    reveal_strlit("v_illusion");
    reveal_strlit("v_liquidation");
    reveal_strlit("v_magic_trick");
    reveal_strlit("v_money_tree");
}

proof fn lemma_voucher_marks_2()
    ensures
        mark("v_nacho_tong"@) == 26982375,
        mark("v_observatory"@) == 29096313,
        mark("v_omen_globe"@) == 26996709,
        mark("v_overstock_norm"@) == 35387373,
        mark("v_overstock_plus"@) == 35387379,
        mark("v_paint_brush"@) == 29112936,
        mark("v_palette"@) == 20723301,
        mark("v_petroglyph"@) == 27015144,
        mark("v_planet_merchant"@) == 37498868,
        mark("v_planet_tycoon"@) == 33307246,
        mark("v_recyclomancy"@) == 31241849,
        mark("v_reroll_glut"@) == 29144692,
        mark("v_reroll_surplus"@) == 35434483,
{
    reveal(mark);
    reveal_strlit("v_nacho_tong");
    reveal_strlit("v_observatory");
    reveal_strlit("v_omen_globe");
    reveal_strlit("v_overstock_norm");
    reveal_strlit("v_overstock_plus");
    reveal_strlit("v_paint_brush");
    reveal_strlit("v_palette");
    reveal_strlit("v_petroglyph");
    reveal_strlit("v_planet_merchant");
    reveal_strlit("v_planet_tycoon");
    reveal_strlit("v_recyclomancy");
    reveal_strlit("v_reroll_glut");
    reveal_strlit("v_reroll_surplus");
}

proof fn lemma_voucher_marks_3()
    ensures
        mark("v_retcon"@) == 18659950,
        mark("v_seed_money"@) == 27062265,
        mark("v_tarot_merchant"@) == 35469044,
        mark("v_tarot_tycoon"@) == 31272942,
        mark("v_telescope"@) == 24982245,
        mark("v_wasteful"@) == 22936172,
{
    reveal(mark);
    reveal_strlit("v_retcon");
    reveal_strlit("v_seed_money");
    reveal_strlit("v_tarot_merchant");
    reveal_strlit("v_tarot_tycoon");
    reveal_strlit("v_telescope");
    reveal_strlit("v_wasteful");
}

/// The marks of the tags.
pub proof fn lemma_tag_marks()
    ensures
        mark("tag_boss"@) == 18477427,
        mark("tag_buffoon"@) == 24771310,
        mark("tag_charm"@) == 20574701,
        mark("tag_coupon"@) == 22673390,
        mark("tag_d_six"@) == 20574840,
        mark("tag_double"@) == 22673381,
        mark("tag_economy"@) == 24769017,
        mark("tag_ethereal"@) == 26866796,
        mark("tag_foil"@) == 18477932,
        mark("tag_garbage"@) == 24768741,
        mark("tag_handy"@) == 20575353,
        mark("tag_holo"@) == 18478191,
        mark("tag_investment"@) == 31060724,
        mark("tag_juggle"@) == 22674149,
        mark("tag_meteor"@) == 22672114,
        mark("tag_negative"@) == 26866661,
        mark("tag_orbital"@) == 24770924,
        mark("tag_polychrome"@) == 31063269,
        mark("tag_rare"@) == 18479461,
        mark("tag_skip"@) == 18479600,
        mark("tag_standard"@) == 26865892,
        mark("tag_top_up"@) == 22673392,
        mark("tag_uncommon"@) == 26866158,
        mark("tag_voucher"@) == 24770546,
{
    lemma_tag_marks_1();
    lemma_tag_marks_2();
}

proof fn lemma_tag_marks_1()
    ensures
        mark("tag_boss"@) == 18477427,
        mark("tag_buffoon"@) == 24771310,
        mark("tag_charm"@) == 20574701,
        mark("tag_coupon"@) == 22673390,
        mark("tag_d_six"@) == 20574840,
        mark("tag_double"@) == 22673381,
        mark("tag_economy"@) == 24769017,
        mark("tag_ethereal"@) == 26866796,
        mark("tag_foil"@) == 18477932,
        mark("tag_garbage"@) == 24768741,
        mark("tag_handy"@) == 20575353,
        mark("tag_holo"@) == 18478191,
        mark("tag_investment"@) == 31060724,
{
    reveal(mark);
    reveal_strlit("tag_boss");
    reveal_strlit("tag_buffoon");
    reveal_strlit("tag_charm");
    reveal_strlit("tag_coupon");
    reveal_strlit("tag_d_six");
    reveal_strlit("tag_double");
    reveal_strlit("tag_economy");
    reveal_strlit("tag_ethereal");
    reveal_strlit("tag_foil");
    reveal_strlit("tag_garbage");
    reveal_strlit("tag_handy");
    reveal_strlit("tag_holo");
    reveal_strlit("tag_investment");
}

proof fn lemma_tag_marks_2()
    ensures
        mark("tag_juggle"@) == 22674149,
        mark("tag_meteor"@) == 22672114,
        mark("tag_negative"@) == 26866661,
        mark("tag_orbital"@) == 24770924,
        mark("tag_polychrome"@) == 31063269,
        mark("tag_rare"@) == 18479461,
        mark("tag_skip"@) == 18479600,
        mark("tag_standard"@) == 26865892,
        mark("tag_top_up"@) == 22673392,
        mark("tag_uncommon"@) == 26866158,
        mark("tag_voucher"@) == 24770546,
{
    reveal(mark);
    reveal_strlit("tag_juggle");
    reveal_strlit("tag_meteor");
    reveal_strlit("tag_negative");
    reveal_strlit("tag_orbital");
    reveal_strlit("tag_polychrome");
    reveal_strlit("tag_rare");
    reveal_strlit("tag_skip");
    reveal_strlit("tag_standard");
    reveal_strlit("tag_top_up");
    reveal_strlit("tag_uncommon");
    reveal_strlit("tag_voucher");
}

/// The marks of the names of the blinds.
pub proof fn lemma_blind_marks()
    ensures
        mark("Amber Acorn"@) == 24678510,
        mark("Big Blind"@) == 20570468,
        mark("Cerulean Bell"@) == 29143276,
        mark("Crimson Heart"@) == 28997492,
        mark("Small Blind"@) == 24662116,
        mark("The Arm"@) == 16339053,
        mark("The Club"@) == 18440674,
        mark("The Eye"@) == 16339045,
        mark("The Fish"@) == 18441064,
        mark("The Flint"@) == 20538228,
        mark("The Goad"@) == 18441188,
        mark("The Head"@) == 18441316,
        mark("The Hook"@) == 18441323,
        mark("The House"@) == 20538469,
        mark("The Manacle"@) == 24735973,
        mark("The Mark"@) == 18441963,
        mark("The Mouth"@) == 20539112,
        mark("The Needle"@) == 22639333,
        mark("The Ox"@) == 14241912,
        mark("The Pillar"@) == 22639858,
        mark("The Plant"@) == 20539508,
        mark("The Psychic"@) == 24738275,
        mark("The Serpent"@) == 24736500,
        mark("The Tooth"@) == 20540008,
        mark("The Wall"@) == 18443244,
        mark("The Water"@) == 20540402,
        mark("The Wheel"@) == 20540396,
        mark("The Window"@) == 22639863,
        mark("Verdant Leaf"@) == 27048550,
        mark("Violet Vessel"@) == 29085804,
{
    lemma_blind_marks_1();
    lemma_blind_marks_2();
    lemma_blind_marks_3();
}

proof fn lemma_blind_marks_1()
    ensures
        mark("Amber Acorn"@) == 24678510,
        mark("Big Blind"@) == 20570468,
        mark("Cerulean Bell"@) == 29143276,
        mark("Crimson Heart"@) == 28997492,
        mark("Small Blind"@) == 24662116,
        mark("The Arm"@) == 16339053,
        mark("The Club"@) == 18440674,
        mark("The Eye"@) == 16339045,
        mark("The Fish"@) == 18441064,
        mark("The Flint"@) == 20538228,
        mark("The Goad"@) == 18441188,
        mark("The Head"@) == 18441316,
        mark("The Hook"@) == 18441323,
{
    reveal(mark);
    reveal_strlit("Amber Acorn");
    reveal_strlit("Big Blind");
    reveal_strlit("Cerulean Bell");
    reveal_strlit("Crimson Heart");
    reveal_strlit("Small Blind");
    reveal_strlit("The Arm");
    reveal_strlit("The Club");
    reveal_strlit("The Eye");
    reveal_strlit("The Fish");
    reveal_strlit("The Flint");
    reveal_strlit("The Goad");
    reveal_strlit("The Head");
    reveal_strlit("The Hook");
}

proof fn lemma_blind_marks_2()
    ensures
        mark("The House"@) == 20538469,
        mark("The Manacle"@) == 24735973,
        mark("The Mark"@) == 18441963,
        mark("The Mouth"@) == 20539112,
        mark("The Needle"@) == 22639333,
        mark("The Ox"@) == 14241912,
        mark("The Pillar"@) == 22639858,
        mark("The Plant"@) == 20539508,
        mark("The Psychic"@) == 24738275,
        mark("The Serpent"@) == 24736500,
        mark("The Tooth"@) == 20540008,
        mark("The Wall"@) == 18443244,
        mark("The Water"@) == 20540402,
{
    reveal(mark);
    reveal_strlit("The House");
    reveal_strlit("The Manacle");
    reveal_strlit("The Mark");
    reveal_strlit("The Mouth");
    reveal_strlit("The Needle");
    reveal_strlit("The Ox");
    reveal_strlit("The Pillar");
    reveal_strlit("The Plant");
    reveal_strlit("The Psychic");
    reveal_strlit("The Serpent");
    reveal_strlit("The Tooth");
    reveal_strlit("The Wall");
    reveal_strlit("The Water");
}

proof fn lemma_blind_marks_3()
    ensures
        mark("The Wheel"@) == 20540396,
        mark("The Window"@) == 22639863,
        mark("Verdant Leaf"@) == 27048550,
        mark("Violet Vessel"@) == 29085804,
{
    reveal(mark);
    reveal_strlit("The Wheel");
    reveal_strlit("The Window");
    reveal_strlit("Verdant Leaf");
    reveal_strlit("Violet Vessel");
}

} // verus!
