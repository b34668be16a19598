//! The board as text.

use crate::coord::{c, Coord};
use crate::jogo::Jogo;
use crate::regras::Posicao;
use crate::seqs::lema_achatar_passo;
use vstd::prelude::*;

verus! {

/// The digit that names column or row `n`.
pub open spec fn algarismo(n: int) -> char {
    if n == 0 {
        '0'
    } else if n == 1 {
        '1'
    } else if n == 2 {
        '2'
    } else if n == 3 {
        '3'
    } else if n == 4 {
        '4'
    } else if n == 5 {
        '5'
    } else if n == 6 {
        '6'
    } else {
        '7'
    }
}

/// The column of the board that is shown at place `i` of a line of text, if
/// any: every third place from the fourth on.
pub open spec fn coluna_no_lugar(i: int) -> Option<int> {
    if i >= 3 && (i - 3) % 3 == 0 {
        Some((i - 3) / 3)
    } else {
        None
    }
}

/// The first line of the text, without its end: the number of each column
/// above the column.
pub open spec fn cabecalho() -> Seq<char> {
    Seq::new(
        25,
        |i: int|
            match coluna_no_lugar(i) {
                Some(x) => algarismo(x),
                None => ' ',
            },
    )
}

impl Posicao {
    /// The line of text for row `y`, without its end: the number of the row,
    /// then the glyph of each square with a blank on either side.
    pub open spec fn linha(self, y: int) -> Seq<char> {
        Seq::new(
            26,
            |i: int|
                if i == 0 {
                    algarismo(y)
                } else {
                    match coluna_no_lugar(i) {
                        Some(x) => self.casa(Coord { x: x as i32, y: y as i32 }).simbolo(),
                        None => ' ',
                    }
                },
        )
    }

    /// The lines of the eight rows, each with its end.
    pub open spec fn linhas(self) -> Seq<Seq<char>> {
        Seq::new(8, |y: int| self.linha(y).push('\n'))
    }

    /// The board as text: the line of the column numbers, then one line for
    /// each row, from row 0 on. Every line ends in a line feed.
    pub open spec fn texto(self) -> Seq<char> {
        cabecalho().push('\n') + self.linhas().flatten()
    }
}

/// `String::push` of the standard library: the text has the character
/// appended at its end and is otherwise as it was.
#[verifier::external_body]
fn acrescentar(texto: &mut String, ch: char)
    ensures
        final(texto)@ == old(texto)@.push(ch),
{
    texto.push(ch);
}

/// The digit that names column or row `n`.
fn digito(n: usize) -> (r: char)
    requires
        n < 8,
    ensures
        r == algarismo(n as int),
{
    if n == 0 {
        '0'
    } else if n == 1 {
        '1'
    } else if n == 2 {
        '2'
    } else if n == 3 {
        '3'
    } else if n == 4 {
        '4'
    } else if n == 5 {
        '5'
    } else if n == 6 {
        '6'
    } else {
        '7'
    }
}

impl Jogo {
    /// The board as text, for showing: column numbers on the first line,
    /// then the rows, each after its number.
    pub fn texto(&self) -> (r: String)
        ensures
            r@ == self@.texto(),
    {
        let mut buffer = String::new();
        let mut i: usize = 0;
        while i < 25
            invariant
                i <= 25,
                buffer@ == cabecalho().take(i as int),
            decreases 25 - i,
        {
            let ch = if i >= 3 && (i - 3) % 3 == 0 {
                digito((i - 3) / 3)
            } else {
                ' '
            };
            acrescentar(&mut buffer, ch);
            assert(buffer@ =~= cabecalho().take(i + 1));
            i += 1;
        }
        acrescentar(&mut buffer, '\n');
        assert(buffer@ =~= cabecalho().push('\n') + self@.linhas().take(0).flatten());
        let mut y: usize = 0;
        while y < 8
            invariant
                y <= 8,
                buffer@ == cabecalho().push('\n') + self@.linhas().take(y as int).flatten(),
            decreases 8 - y,
        {
            let ghost antes = buffer@;
            let mut i: usize = 0;
            assert(buffer@ =~= antes + self@.linha(y as int).take(0));
            while i < 26
                invariant
                    y < 8,
                    i <= 26,
                    buffer@ == antes + self@.linha(y as int).take(i as int),
                decreases 26 - i,
            {
                let ch = if i == 0 {
                    digito(y)
                } else if i >= 3 && (i - 3) % 3 == 0 {
                    self.casa(c(((i - 3) / 3) as i32, y as i32)).glifo()
                } else {
                    ' '
                };
                acrescentar(&mut buffer, ch);
                assert(buffer@ =~= antes + self@.linha(y as int).take(i + 1));
                i += 1;
            }
            acrescentar(&mut buffer, '\n');
            proof {
                lema_achatar_passo(self@.linhas(), y as int);
                assert(buffer@ =~= antes + self@.linhas()[y as int]);
            }
            y += 1;
        }
        assert(self@.linhas().take(8) =~= self@.linhas());
        buffer
    }
}

} // verus!
