use vstd::prelude::*;

verus! {

/// The number of bytes of an `Address`.
pub const ADDRESS_LEN: usize = 20;

/// How many leading and how many trailing bytes of an address its short form shows.
pub const ADDRESS_SHOWN: usize = 4;

/// A 20-byte account address.
#[derive(Debug, Clone, Copy, PartialEq, Eq)]
pub struct Address(pub [u8; 20]);

/// The address of an app template.
#[derive(Debug, Clone, Copy, PartialEq, Eq)]
pub struct TemplateAddr(pub Address);

impl TemplateAddr {
    /// The address inside.
    pub fn inner(&self) -> (r: &Address)
        ensures
            *r == self.0,
    {
        &self.0
    }
}

/// An app: its name, and the template it was spawned from.
#[derive(Debug, Clone, PartialEq)]
pub struct App {
    /// The app's name.
    pub name: String,
    /// The template the app was spawned from.
    pub template: TemplateAddr,
}

/// The lowercase hexadecimal digit of `d`, for `d < 16`.
pub open spec fn hex_digit_spec(d: u8) -> char {
    if d < 10 {
        ((d + 48) as char)
    } else {
        ((d + 87) as char)
    }
}

/// Two lowercase hexadecimal digits for each byte of `bytes`.
pub open spec fn hex_spec(bytes: Seq<u8>) -> Seq<char>
    decreases bytes.len(),
{
    if bytes.len() == 0 {
        Seq::empty()
    } else {
        hex_spec(bytes.drop_last()).add(
            seq![hex_digit_spec(bytes.last() / 16), hex_digit_spec(bytes.last() % 16)],
        )
    }
}

/// The short form of an address: the hex of its first four bytes, a space,
/// and the hex of its last four bytes.
pub open spec fn address_text_spec(addr: Seq<u8>) -> Seq<char> {
    hex_spec(addr.take(4)).add(seq![' ']).add(hex_spec(addr.skip(16)))
}

fn hex_digit(d: u8) -> (r: &'static str)
    requires
        d < 16,
    ensures
        r@ == seq![hex_digit_spec(d)],
{
    proof {
        reveal_strlit("0");
        reveal_strlit("1");
        reveal_strlit("2");
        reveal_strlit("3");
        reveal_strlit("4");
        reveal_strlit("5");
        reveal_strlit("6");
        reveal_strlit("7");
        reveal_strlit("8");
        reveal_strlit("9");
        reveal_strlit("a");
        reveal_strlit("b");
        reveal_strlit("c");
        reveal_strlit("d");
        reveal_strlit("e");
        reveal_strlit("f");
    }
    let r = match d {
        0 => "0",
        1 => "1",
        2 => "2",
        3 => "3",
        4 => "4",
        5 => "5",
        6 => "6",
        7 => "7",
        8 => "8",
        9 => "9",
        10 => "a",
        11 => "b",
        12 => "c",
        13 => "d",
        14 => "e",
        _ => "f",
    };
    assert(r@ =~= seq![hex_digit_spec(d)]);
    r
}

/// Appends the hex of `bytes[from .. to]` to `out`.
fn push_hex(out: &mut String, bytes: &[u8; 20], from: usize, to: usize)
    requires
        from <= to <= 20,
    ensures
        final(out)@ == old(out)@.add(hex_spec(bytes@.subrange(from as int, to as int))),
{
    let mut i: usize = from;
    while i < to
        invariant
            from <= i <= to <= 20,
            out@ == old(out)@.add(hex_spec(bytes@.subrange(from as int, i as int))),
        decreases to - i,
    {
        let b = bytes[i];
        out.append(hex_digit(b / 16));
        out.append(hex_digit(b % 16));
        proof {
            let s = bytes@.subrange(from as int, i + 1);
            assert(s.drop_last() =~= bytes@.subrange(from as int, i as int));
            assert(s.last() == b);
        }
        assert(out@ =~= old(out)@.add(hex_spec(bytes@.subrange(from as int, i + 1))));
        i = i + 1;
    }
}

impl App {
    /// `Name: ` followed by `name`.
    pub fn fmt_name(&self, name: &str) -> (r: String)
        ensures
            r@ == "Name: "@.add(name@),
    {
        let mut r = String::from_str("Name: ");
        r.append(name);
        r
    }

    /// `Template: ` followed by the short form of the template's address.
    pub fn fmt_template(&self, addr: &TemplateAddr) -> (r: String)
        ensures
            r@ == "Template: "@.add(address_text_spec(addr.0.0@)),
    {
        let a = self.fmt_address(addr.inner());
        let mut r = String::from_str("Template: ");
        r.append(a.as_str());
        r
    }

    /// The short form of `addr`: the hex of its first four bytes, a space,
    /// and the hex of its last four bytes.
    pub fn fmt_address(&self, addr: &Address) -> (r: String)
        ensures
            r@ == address_text_spec(addr.0@),
    {
        let mut r = String::new();
        push_hex(&mut r, &addr.0, 0, ADDRESS_SHOWN);
        r.append(" ");
        push_hex(&mut r, &addr.0, ADDRESS_LEN - ADDRESS_SHOWN, ADDRESS_LEN);
        proof {
            reveal_strlit(" ");
            assert(addr.0@.subrange(0, 4) =~= addr.0@.take(4));
            assert(addr.0@.subrange(16, 20) =~= addr.0@.skip(16));
        }
        r
    }

    /// The app's description: its name line and its template line, each
    /// ended by a newline.
    pub fn describe(&self) -> (r: String)
        ensures
            r@ == "Name: "@.add(self.name@).add("\n"@).add("Template: "@).add(
                address_text_spec(self.template.0.0@),
            ).add("\n"@),
    {
        let mut r = self.fmt_name(self.name.as_str());
        r.append("\n");
        let t = self.fmt_template(&self.template);
        r.append(t.as_str());
        r.append("\n");
        r
    }
}

} // verus!
