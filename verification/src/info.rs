//! The information block: a list of key and value texts, and the fields that
//! are read from it.
//!
//! In the file each key and each value is followed by the separator byte
//! 0x01. The keys `size`, `timezone`, `date`, `time` and `name` also set the
//! field of their name; every pair, of whatever key, is kept in the list in
//! its place. Writing goes by the list alone.

use crate::buffer::append_bytes;
use crate::error::{CodecError, Failure};
use crate::number::{parse_u32, parse_u32_spec};
use crate::text::same_text;
use vstd::prelude::*;
use vstd::utf8::encode_utf8;

verus! {

/// The byte that ends every key and every value of the information block.
pub const INFO_SPLIT: u8 = 1;

/// The character that the separator byte decodes to.
pub open spec fn separator() -> char {
    '\u{1}'
}

/// The key of the entry that holds the size.
pub open spec fn key_size() -> Seq<char> {
    seq!['s', 'i', 'z', 'e']
}

/// The key of the entry that holds the time zone.
pub open spec fn key_time_zone() -> Seq<char> {
    seq!['t', 'i', 'm', 'e', 'z', 'o', 'n', 'e']
}

/// The key of the entry that holds the date.
pub open spec fn key_date() -> Seq<char> {
    seq!['d', 'a', 't', 'e']
}

/// The key of the entry that holds the time.
pub open spec fn key_time() -> Seq<char> {
    seq!['t', 'i', 'm', 'e']
}

/// The key of the entry that holds the player's name.
pub open spec fn key_name() -> Seq<char> {
    seq!['n', 'a', 'm', 'e']
}

/// A pair of texts: a key and its value.
pub type TextPair = (Seq<char>, Seq<char>);

/// Mathematical model of a [`DuplicationInfo`].
pub struct InfoModel {
    pub size: u32,
    pub time_zone: Seq<char>,
    pub date: Seq<char>,
    pub time: Seq<char>,
    pub player_name: Seq<char>,
    /// Every pair of the block, in the order of the block.
    pub values: Seq<TextPair>,
}

/// The parts into which the separator cuts a text. A text without a
/// separator is one part; a text that ends in a separator has an empty last
/// part.
pub open spec fn split_text(s: Seq<char>, sep: char) -> Seq<Seq<char>>
    decreases s.len(),
{
    if s.len() == 0 {
        seq![Seq::empty()]
    } else if s.last() == sep {
        split_text(s.drop_last(), sep).push(Seq::empty())
    } else {
        let parts = split_text(s.drop_last(), sep);
        parts.update(parts.len() - 1, parts.last().push(s.last()))
    }
}

/// Consecutive parts taken two by two as key and value. A last part without
/// a partner is left out.
pub open spec fn pair_up(parts: Seq<Seq<char>>) -> Seq<TextPair> {
    Seq::new(parts.len() / 2, |i: int| (parts[2 * i], parts[2 * i + 1]))
}

/// The value of the last pair with the key `key`, or the empty text where no
/// pair has that key.
pub open spec fn last_value(pairs: Seq<TextPair>, key: Seq<char>) -> Seq<char>
    decreases pairs.len(),
{
    if pairs.len() == 0 {
        Seq::empty()
    } else if pairs.last().0 == key {
        pairs.last().1
    } else {
        last_value(pairs.drop_last(), key)
    }
}

/// The number in the last pair with the key `size`, or 0 where there is none.
pub open spec fn last_size(pairs: Seq<TextPair>) -> u32
    decreases pairs.len(),
{
    if pairs.len() == 0 {
        0
    } else if pairs.last().0 == key_size() {
        match parse_u32_spec(pairs.last().1) {
            Some(n) => n,
            None => 0,
        }
    } else {
        last_size(pairs.drop_last())
    }
}

/// Every pair with the key `size` holds an unsigned number.
pub open spec fn sizes_valid(pairs: Seq<TextPair>) -> bool {
    forall|i: int|
        0 <= i < pairs.len() && (#[trigger] pairs[i]).0 == key_size() ==> parse_u32_spec(
            pairs[i].1,
        ) is Some
}

/// The information that a list of pairs stands for: the pairs themselves,
/// and in each field the value of the last pair that is named for it.
pub open spec fn info_of(pairs: Seq<TextPair>) -> InfoModel {
    InfoModel {
        size: last_size(pairs),
        time_zone: last_value(pairs, key_time_zone()),
        date: last_value(pairs, key_date()),
        time: last_value(pairs, key_time()),
        player_name: last_value(pairs, key_name()),
        values: pairs,
    }
}

/// The information that the text of a block is read as, or `None` where a
/// `size` entry holds no number.
pub open spec fn parse_info(text: Seq<char>) -> Option<InfoModel> {
    let pairs = pair_up(split_text(text, separator()));
    if sizes_valid(pairs) {
        Some(info_of(pairs))
    } else {
        None
    }
}

/// The bytes of a list of pairs: for each pair the UTF-8 bytes of the key, the
/// separator, the UTF-8 bytes of the value, and the separator.
pub open spec fn info_bytes(values: Seq<TextPair>) -> Seq<u8>
    decreases values.len(),
{
    if values.len() == 0 {
        Seq::empty()
    } else {
        info_bytes(values.drop_last()) + encode_utf8(values.last().0) + seq![INFO_SPLIT]
            + encode_utf8(values.last().1) + seq![INFO_SPLIT]
    }
}

/// The texts of a list of strings.
pub open spec fn texts(v: Seq<String>) -> Seq<Seq<char>> {
    Seq::new(v.len(), |i: int| v[i]@)
}

/// The texts of a list of pairs of strings.
pub open spec fn text_pairs(v: Seq<(String, String)>) -> Seq<TextPair> {
    Seq::new(v.len(), |i: int| (v[i].0@, v[i].1@))
}

/// What the information block of a file says about the duplication.
pub struct DuplicationInfo {
    size: u32,
    time_zone: String,
    date: String,
    time: String,
    player_name: String,
    values: Vec<(String, String)>,
}

impl View for DuplicationInfo {
    type V = InfoModel;

    closed spec fn view(&self) -> InfoModel {
        InfoModel {
            size: self.size,
            time_zone: self.time_zone@,
            date: self.date@,
            time: self.time@,
            player_name: self.player_name@,
            values: text_pairs(self.values@),
        }
    }
}

impl DuplicationInfo {
    /// An information record without entries: the size is 0 and every text
    /// field is empty.
    pub fn new() -> (r: DuplicationInfo)
        ensures
            r@ == info_of(Seq::empty()),
    {
        let r = DuplicationInfo {
            size: 0,
            time_zone: String::new(),
            date: String::new(),
            time: String::new(),
            player_name: String::new(),
            values: Vec::new(),
        };
        assert(r@.values =~= Seq::<TextPair>::empty());
        r
    }

    /// Sets the size field. The pairs are left as they are.
    pub fn set_size(&mut self, size: u32)
        ensures
            final(self)@ == (InfoModel { size: size, ..old(self)@ }),
    {
        self.size = size;
    }

    /// Sets the time zone field. The pairs are left as they are.
    pub fn set_time_zone(&mut self, time_zone: String)
        ensures
            final(self)@ == (InfoModel { time_zone: time_zone@, ..old(self)@ }),
    {
        self.time_zone = time_zone;
    }

    /// Sets the date field. The pairs are left as they are.
    pub fn set_date(&mut self, date: String)
        ensures
            final(self)@ == (InfoModel { date: date@, ..old(self)@ }),
    {
        self.date = date;
    }

    /// Sets the time field. The pairs are left as they are.
    pub fn set_time(&mut self, time: String)
        ensures
            final(self)@ == (InfoModel { time: time@, ..old(self)@ }),
    {
        self.time = time;
    }

    /// Sets the name of the player. The pairs are left as they are.
    pub fn set_player_name(&mut self, player_name: String)
        ensures
            final(self)@ == (InfoModel { player_name: player_name@, ..old(self)@ }),
    {
        self.player_name = player_name;
    }

    /// The size that the block gives.
    pub fn size(&self) -> (r: u32)
        ensures
            r == self@.size,
    {
        self.size
    }

    /// The time zone that the block gives.
    pub fn time_zone(&self) -> (r: &str)
        ensures
            r@ == self@.time_zone,
    {
        self.time_zone.as_str()
    }

    /// The date that the block gives.
    pub fn date(&self) -> (r: &str)
        ensures
            r@ == self@.date,
    {
        self.date.as_str()
    }

    /// The time that the block gives.
    pub fn time(&self) -> (r: &str)
        ensures
            r@ == self@.time,
    {
        self.time.as_str()
    }

    /// The name of the player who made the duplication.
    pub fn player_name(&self) -> (r: &str)
        ensures
            r@ == self@.player_name,
    {
        self.player_name.as_str()
    }

    /// Every pair of the block, in the order of the block.
    pub fn values(&self) -> (r: &Vec<(String, String)>)
        ensures
            text_pairs(r@) == self@.values,
    {
        &self.values
    }

    /// Appends a pair to the list of pairs. The fields are left as they are.
    pub fn add_value(&mut self, key: String, value: String)
        ensures
            final(self)@ == (InfoModel {
                values: old(self)@.values.push((key@, value@)),
                ..old(self)@
            }),
    {
        let ghost before = self.values@;
        self.values.push((key, value));
        assert(text_pairs(self.values@) =~= text_pairs(before).push((key@, value@)));
    }
}

impl Clone for DuplicationInfo {
    /// The clone has the same model as the value it was made from.
    fn clone(&self) -> (r: DuplicationInfo)
        ensures
            r@ == self@,
    {
        let mut values: Vec<(String, String)> = Vec::new();
        let mut i: usize = 0;
        while i < self.values.len()
            invariant
                i <= self.values.len(),
                values@.len() == i,
                forall|j: int|
                    0 <= j < i ==> values@[j].0@ == self.values@[j].0@ && values@[j].1@
                        == self.values@[j].1@,
            decreases self.values.len() - i,
        {
            values.push((self.values[i].0.clone(), self.values[i].1.clone()));
            i += 1;
        }
        assert(text_pairs(values@) =~= text_pairs(self.values@));
        DuplicationInfo {
            size: self.size,
            time_zone: self.time_zone.clone(),
            date: self.date.clone(),
            time: self.time.clone(),
            player_name: self.player_name.clone(),
            values,
        }
    }
}

/// Cuts a text at every separator, as `str::split` does.
pub fn split(text: &str, sep: char) -> (parts: Vec<String>)
    ensures
        texts(parts@) == split_text(text@, sep),
{
    let n = text.unicode_len();
    let mut parts: Vec<String> = Vec::new();
    let mut start: usize = 0;
    let mut i: usize = 0;
    assert(text@.take(0) =~= Seq::<char>::empty());
    while i < n
        invariant
            start <= i <= n,
            n == text@.len(),
            split_text(text@.take(i as int), sep) == texts(parts@).push(
                text@.subrange(start as int, i as int),
            ),
        decreases n - i,
    {
        let c = text.get_char(i);
        let ghost current = text@.subrange(start as int, i as int);
        assert(text@.take(i + 1).drop_last() =~= text@.take(i as int));
        if c == sep {
            let part = text.substring_char(start, i).to_owned();
            proof {
                assert(text@.subrange(i + 1, i + 1) =~= Seq::<char>::empty());
            }
            parts.push(part);
            start = i + 1;
        } else {
            proof {
                assert(current.push(c) =~= text@.subrange(start as int, i + 1));
            }
        }
        i += 1;
    }
    let part = text.substring_char(start, n).to_owned();
    proof {
        assert(text@.take(n as int) =~= text@);
    }
    parts.push(part);
    parts
}

/// Reads the text of an information block: the pairs between the
/// separators, each recognised key into its field.
pub fn parse_info_text(text: &str) -> (r: Result<DuplicationInfo, CodecError>)
    ensures
        match parse_info(text@) {
            Some(model) => r matches Ok(info) && info@ == model,
            None => r matches Err(e) && e@ == Failure::MalformedMetadata,
        },
{
    let parts = split(text, '\u{1}');
    let count = parts.len() / 2;
    let ghost pairs = pair_up(texts(parts@));
    let mut info = DuplicationInfo::new();
    let mut i: usize = 0;
    assert(pairs.take(0) =~= Seq::<TextPair>::empty());
    while i < count
        invariant
            i <= count,
            count == parts.len() / 2,
            texts(parts@) == split_text(text@, separator()),
            pairs == pair_up(texts(parts@)),
            info@ == info_of(pairs.take(i as int)),
            sizes_valid(pairs.take(i as int)),
        decreases count - i,
    {
        let key = parts[2 * i].as_str();
        let value = parts[2 * i + 1].as_str();
        let ghost seen = pairs.take(i as int);
        let ghost next = pairs.take(i + 1);
        proof {
            reveal_strlit("size");
            reveal_strlit("timezone");
            reveal_strlit("date");
            reveal_strlit("time");
            reveal_strlit("name");
            assert("size"@ =~= key_size());
            assert("timezone"@ =~= key_time_zone());
            assert("date"@ =~= key_date());
            assert("time"@ =~= key_time());
            assert("name"@ =~= key_name());
            assert(pairs[i as int] == (key@, value@));
            assert(next.drop_last() =~= seen);
        }
        if same_text(key, "size") {
            match parse_u32(value) {
                Some(size) => {
                    info.set_size(size);
                },
                None => {
                    return Err(CodecError::MalformedMetadata);
                },
            }
        } else if same_text(key, "timezone") {
            info.set_time_zone(value.to_owned());
        } else if same_text(key, "date") {
            info.set_date(value.to_owned());
        } else if same_text(key, "time") {
            info.set_time(value.to_owned());
        } else if same_text(key, "name") {
            info.set_player_name(value.to_owned());
        }
        info.add_value(key.to_owned(), value.to_owned());
        proof {
            assert(info@.values =~= next);
        }
        i += 1;
    }
    assert(pairs.take(i as int) =~= pairs);
    Ok(info)
}

/// Appends the pairs of `info` to `stream`, in their order. The fields of
/// `info` are not consulted.
pub fn write_info(info: &DuplicationInfo, stream: &mut Vec<u8>)
    ensures
        final(stream)@ == old(stream)@ + info_bytes(info@.values),
{
    let ghost values = text_pairs(info.values@);
    let mut i: usize = 0;
    while i < info.values.len()
        invariant
            i <= info.values.len(),
            values == text_pairs(info.values@),
            stream@ == old(stream)@ + info_bytes(values.take(i as int)),
        decreases info.values.len() - i,
    {
        append_bytes(stream, info.values[i].0.as_str().as_bytes());
        stream.push(INFO_SPLIT);
        append_bytes(stream, info.values[i].1.as_str().as_bytes());
        stream.push(INFO_SPLIT);
        proof {
            assert(values.take(i + 1).drop_last() =~= values.take(i as int));
        }
        i += 1;
    }
    assert(values.take(i as int) =~= values);
}

} // verus!
