pub mod accounts;
pub mod actions;
pub mod answers;
pub mod blinds;
pub mod cards;
pub mod config;
pub mod consumables;
pub mod course;
pub mod deck;
pub mod double;
pub mod exact;
pub mod handeval;
pub mod items;
pub mod joker_keys;
pub mod jokers;
pub mod key_marks;
pub mod keymap;
pub mod laws_of_blinds;
pub mod laws_of_consumables;
pub mod laws_of_growth;
pub mod laws_of_hands;
pub mod laws_of_jokers;
pub mod laws_of_pools;
pub mod laws_of_rounds;
pub mod laws_of_scoring;
pub mod laws_of_shops;
pub mod making;
pub mod market;
pub mod numbering;
pub mod order;
pub mod packs;
pub mod perhand;
pub mod play;
pub mod prices;
pub mod registry;
pub mod rng;
pub mod round;
pub mod run;
pub mod scoring;
pub mod shop;
pub mod snapshot;
pub mod sound;
pub mod stock;
pub mod tags;
pub mod tarots;
pub mod text;
pub mod trade;
pub mod usage;
pub mod windows;
