use vstd::prelude::*;
use vstd::string::StringExecFns;
use crate::arbol::Libro;

verus! {

/// The character of a decimal digit.
pub open spec fn digito(d: nat) -> char {
    if d == 0 {
        '0'
    } else if d == 1 {
        '1'
    } else if d == 2 {
        '2'
    } else if d == 3 {
        '3'
    } else if d == 4 {
        '4'
    } else if d == 5 {
        '5'
    } else if d == 6 {
        '6'
    } else if d == 7 {
        '7'
    } else if d == 8 {
        '8'
    } else {
        '9'
    }
}

/// The decimal notation of `n`, without leading zeros.
pub open spec fn decimal(n: nat) -> Seq<char>
    decreases n,
{
    if n < 10 {
        seq![digito(n)]
    } else {
        decimal(n / 10) + seq![digito(n % 10)]
    }
}

/// The one-line description of a book: `ISBN: <isbn>, Titulo: <title>`.
pub open spec fn texto_libro(isbn: u32, titulo: Seq<char>) -> Seq<char> {
    "ISBN: "@ + decimal(isbn as nat) + ", Titulo: "@ + titulo
}

/// The text of the digit `d`.
fn cifra(d: u32) -> (s: &'static str)
    requires
        d < 10,
    ensures
        s@ == seq![digito(d as nat)],
{
    if d == 0 {
        proof { reveal_strlit("0"); }
        "0"
    } else if d == 1 {
        proof { reveal_strlit("1"); }
        "1"
    } else if d == 2 {
        proof { reveal_strlit("2"); }
        "2"
    } else if d == 3 {
        proof { reveal_strlit("3"); }
        "3"
    } else if d == 4 {
        proof { reveal_strlit("4"); }
        "4"
    } else if d == 5 {
        proof { reveal_strlit("5"); }
        "5"
    } else if d == 6 {
        proof { reveal_strlit("6"); }
        "6"
    } else if d == 7 {
        proof { reveal_strlit("7"); }
        "7"
    } else if d == 8 {
        proof { reveal_strlit("8"); }
        "8"
    } else {
        proof { reveal_strlit("9"); }
        "9"
    }
}

/// The decimal notation of `n`.
pub fn decimal_u32(n: u32) -> (s: String)
    ensures
        s@ == decimal(n as nat),
    decreases n,
{
    if n < 10 {
        cifra(n).to_owned()
    } else {
        let mut s = decimal_u32(n / 10);
        s.append(cifra(n % 10));
        s
    }
}

/// The one-line description of `libro`, as the statistics report it.
pub fn describir_libro(libro: &Libro) -> (s: String)
    ensures
        s@ == texto_libro(libro.isbn, libro.titulo@),
{
    let mut s = "ISBN: ".to_owned();
    let n = decimal_u32(libro.isbn);
    s.append(n.as_str());
    s.append(", Titulo: ");
    s.append(libro.titulo.as_str());
    s
}

} // verus!
