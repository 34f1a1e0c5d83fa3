use vstd::prelude::*;
use crate::kind::Kind;
use crate::entry::Entry;
use vstd::string::StringExecFns;

verus! {

/// The character of a decimal digit.
pub open spec fn digit_char(d: int) -> char {
    if d == 0 {
        '0'
    } else if d == 1 {
        '1'
    } else if d == 2 {
        '2'
    } else if d == 3 {
        '3'
    } else if d == 4 {
        '4'
    } else if d == 5 {
        '5'
    } else if d == 6 {
        '6'
    } else if d == 7 {
        '7'
    } else if d == 8 {
        '8'
    } else {
        '9'
    }
}

/// The decimal digits of `n`, most significant first, without leading zeros.
pub open spec fn digits_of(n: nat) -> Seq<char>
    decreases n,
{
    if n < 10 {
        seq![digit_char(n as int)]
    } else {
        digits_of(n / 10).push(digit_char((n % 10) as int))
    }
}

/// `v` written in decimal, with a leading `-` when negative.
pub open spec fn decimal_text(v: int) -> Seq<char> {
    if v < 0 {
        seq!['-'] + digits_of((-v) as nat)
    } else {
        digits_of(v as nat)
    }
}

/// How a kind is written in an export.
pub open spec fn kind_label(k: Kind) -> Seq<char> {
    match k {
        Kind::Expense => "expense"@,
        Kind::Income => "income"@,
    }
}

/// The views of a row of fields.
pub open spec fn field_views(v: Seq<String>) -> Seq<Seq<char>> {
    v.map_values(|s: String| s@)
}

/// The text of one decimal digit.
fn digit_text(d: u64) -> (r: &'static str)
    requires
        d < 10,
    ensures
        r@ == seq![digit_char(d as int)],
{
    proof {
        reveal_strlit("0");
        reveal_strlit("1");
        reveal_strlit("2");
        reveal_strlit("3");
        reveal_strlit("4");
        reveal_strlit("5");
        reveal_strlit("6");
        reveal_strlit("7");
        reveal_strlit("8");
        reveal_strlit("9");
    }
    let r = match d {
        0 => "0",
        1 => "1",
        2 => "2",
        3 => "3",
        4 => "4",
        5 => "5",
        6 => "6",
        7 => "7",
        8 => "8",
        _ => "9",
    };
    assert(r@ =~= seq![digit_char(d as int)]);
    r
}

/// Appends the decimal digits of `n` to `out`.
fn push_digits(n: u64, out: &mut String)
    ensures
        final(out)@ == old(out)@ + digits_of(n as nat),
    decreases n,
{
    if n >= 10 {
        push_digits(n / 10, out);
    }
    out.append(digit_text(n % 10));
    proof {
        if n >= 10 {
            assert(digits_of(n as nat) == digits_of((n / 10) as nat).push(digit_char((n % 10) as int)));
        }
        assert(final(out)@ =~= old(out)@ + digits_of(n as nat));
    }
}

/// `v` in decimal digits, with `-` in front when negative.
fn decimal(v: i64) -> (r: String)
    ensures
        r@ == decimal_text(v as int),
{
    let mut out = String::new();
    if v < 0 {
        proof {
            reveal_strlit("-");
        }
        out.append("-");
        let m: u64 = if v == i64::MIN {
            9223372036854775808u64
        } else {
            (-v) as u64
        };
        push_digits(m, &mut out);
        assert(out@ =~= seq!['-'] + digits_of((-(v as int)) as nat));
    } else {
        push_digits(v as u64, &mut out);
        assert(out@ =~= digits_of(v as nat));
    }
    out
}

/// The name under which a kind is exported.
pub fn kind_name(k: Kind) -> (r: String)
    ensures
        r@ == kind_label(k),
{
    match k {
        Kind::Expense => "expense".to_owned(),
        Kind::Income => "income".to_owned(),
    }
}

/// The header row of an export of entries.
pub fn export_header() -> (r: Vec<String>)
    ensures
        field_views(r@) == seq![
            "id"@,
            "kind"@,
            "amount"@,
            "category"@,
            "note"@,
            "created_at"@,
        ],
{
    let r = vec![
        "id".to_owned(),
        "kind".to_owned(),
        "amount".to_owned(),
        "category".to_owned(),
        "note".to_owned(),
        "created_at".to_owned(),
    ];
    assert(field_views(r@) =~= seq!["id"@, "kind"@, "amount"@, "category"@, "note"@, "created_at"@]);
    r
}

/// One entry as an export row: id, kind name, amount, category, note (empty when absent)
/// and timestamp.
pub fn export_record(e: &Entry) -> (r: Vec<String>)
    ensures
        field_views(r@) == seq![
            decimal_text(e.id as int),
            kind_label(e.kind),
            decimal_text(e.amount as int),
            e.category@,
            match e.note {
                Some(n) => n@,
                None => Seq::<char>::empty(),
            },
            e.created_at@,
        ],
{
    let note = match &e.note {
        Some(n) => n.clone(),
        None => String::new(),
    };
    let r = vec![
        decimal(e.id),
        kind_name(e.kind),
        decimal(e.amount),
        e.category.clone(),
        note,
        e.created_at.clone(),
    ];
    assert(field_views(r@) =~= seq![
        decimal_text(e.id as int),
        kind_label(e.kind),
        decimal_text(e.amount as int),
        e.category@,
        match e.note {
            Some(n) => n@,
            None => Seq::<char>::empty(),
        },
        e.created_at@,
    ]);
    r
}

} // verus!
