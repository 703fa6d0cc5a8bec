use vstd::prelude::*;

verus! {

/// Kind of area a player stands in.
#[derive(Debug, Clone, Copy, PartialEq, Eq, Hash, Structural)]
pub enum ZoneType {
    Safe,
    PvE,
    PvP,
}

/// Identifies a specific world instance.
/// e.g. ("kremwood_1", 2) = Kremwood Forest Instance 1, Server 2
#[derive(Debug)]
pub struct WorldId {
    pub world_name: String,
    pub instance_id: u32,
}

/// The abstract value of a `WorldId`: its name and its instance number.
pub struct WorldIdView {
    pub world_name: Seq<char>,
    pub instance_id: u32,
}

impl View for WorldId {
    type V = WorldIdView;

    open spec fn view(&self) -> WorldIdView {
        WorldIdView { world_name: self.world_name@, instance_id: self.instance_id }
    }
}

/// The character of the decimal digit `d`.
pub open spec fn digit_char(d: nat) -> char {
    if d == 0 {
        '0'
    } else if d == 1 {
        '1'
    } else if d == 2 {
        '2'
    } else if d == 3 {
        '3'
    } else if d == 4 {
        '4'
    } else if d == 5 {
        '5'
    } else if d == 6 {
        '6'
    } else if d == 7 {
        '7'
    } else if d == 8 {
        '8'
    } else {
        '9'
    }
}

/// The decimal notation of `n`, without leading zeros.
pub open spec fn decimal(n: nat) -> Seq<char>
    decreases n,
{
    if n < 10 {
        seq![digit_char(n)]
    } else {
        decimal(n / 10).push(digit_char(n % 10))
    }
}

/// The number that a string of decimal digits denotes.
pub open spec fn digits_value(s: Seq<char>) -> int
    decreases s.len(),
{
    if s.len() == 0 {
        0
    } else {
        digits_value(s.drop_last()) * 10 + (s.last() as int - '0' as int)
    }
}

proof fn lemma_digit_char(d: nat)
    requires
        d < 10,
    ensures
        digit_char(d) as int - '0' as int == d,
        '0' <= digit_char(d) <= '9',
        d > 0 ==> digit_char(d) != '0',
{
    assert('0' as int == 48 && '1' as int == 49 && '2' as int == 50 && '3' as int == 51 && '4' as int == 52);
    assert('5' as int == 53 && '6' as int == 54 && '7' as int == 55 && '8' as int == 56 && '9' as int == 57);
}

/// `decimal(n)` is the usual decimal notation of `n`: its characters are
/// digits `0` to `9`, it denotes `n`, and it starts with `0` only for zero.
pub proof fn lemma_decimal_notation(n: nat)
    ensures
        decimal(n).len() >= 1,
        forall|i: int| 0 <= i < decimal(n).len() ==> '0' <= #[trigger] decimal(n)[i] <= '9',
        digits_value(decimal(n)) == n,
        n > 0 ==> decimal(n)[0] != '0',
    decreases n,
{
    lemma_digit_char(n % 10);
    if n >= 10 {
        lemma_decimal_notation(n / 10);
        assert(n == (n / 10) * 10 + n % 10);
        let s = decimal(n);
        assert(s.drop_last() == decimal(n / 10));
        assert(s.last() == digit_char(n % 10));
        assert(digits_value(s) == digits_value(decimal(n / 10)) * 10 + (n % 10) as int);
        assert(s[0] == decimal(n / 10)[0]);
    } else {
        let s = decimal(n);
        assert(s.drop_last() =~= Seq::<char>::empty());
        assert(digits_value(s) == digits_value(s.drop_last()) * 10 + (s.last() as int - '0' as int));
    }
}

/// The text by which a world instance is shown: its name, a colon and its
/// instance number in decimal, e.g. `kremwood_1:2`.
pub open spec fn world_id_text(id: WorldIdView) -> Seq<char> {
    id.world_name + seq![':'] + decimal(id.instance_id as nat)
}

fn digit_str(d: u32) -> (s: &'static str)
    requires
        d < 10,
    ensures
        s@ == seq![digit_char(d as nat)],
{
    proof {
        reveal_strlit("0");
        reveal_strlit("1");
        reveal_strlit("2");
        reveal_strlit("3");
        reveal_strlit("4");
        reveal_strlit("5");
        reveal_strlit("6");
        reveal_strlit("7");
        reveal_strlit("8");
        reveal_strlit("9");
    }
    let s = match d {
        0 => "0",
        1 => "1",
        2 => "2",
        3 => "3",
        4 => "4",
        5 => "5",
        6 => "6",
        7 => "7",
        8 => "8",
        _ => "9",
    };
    assert(s@ =~= seq![digit_char(d as nat)]);
    s
}

fn append_decimal(s: &mut String, n: u32)
    ensures
        final(s)@ == old(s)@ + decimal(n as nat),
    decreases n,
{
    if n >= 10 {
        append_decimal(s, n / 10);
    }
    s.append(digit_str(n % 10));
    assert(final(s)@ =~= old(s)@ + decimal(n as nat));
}

impl WorldId {
    pub fn new(name: &str, instance: u32) -> (id: Self)
        ensures
            id@ == (WorldIdView { world_name: name@, instance_id: instance }),
    {
        WorldId { world_name: String::from_str(name), instance_id: instance }
    }

    /// Whether two ids name the same instance of the same world.
    pub fn same_as(&self, other: &WorldId) -> (same: bool)
        ensures
            same == (self@ == other@),
    {
        self.instance_id == other.instance_id && self.world_name == other.world_name
    }

    /// An equal copy of this id.
    pub fn duplicate(&self) -> (copy: WorldId)
        ensures
            copy@ == self@,
    {
        WorldId { world_name: self.world_name.clone(), instance_id: self.instance_id }
    }

    /// The text by which this instance is shown, e.g. `kremwood_1:2`.
    pub fn to_display_string(&self) -> (text: String)
        ensures
            text@ == world_id_text(self@),
    {
        proof {
            reveal_strlit(":");
        }
        let mut text = self.world_name.clone();
        text.append(":");
        append_decimal(&mut text, self.instance_id);
        assert(text@ =~= world_id_text(self@));
        text
    }
}

impl Clone for WorldId {
    fn clone(&self) -> (copy: Self)
        ensures
            copy@ == self@,
    {
        self.duplicate()
    }
}

impl PartialEq for WorldId {
    fn eq(&self, other: &Self) -> (same: bool) {
        self.same_as(other)
    }
}

impl vstd::std_specs::cmp::PartialEqSpecImpl for WorldId {
    open spec fn obeys_eq_spec() -> bool {
        true
    }

    open spec fn eq_spec(&self, other: &WorldId) -> bool {
        self@ == other@
    }
}

impl Eq for WorldId {
}

} // verus!
