//! Players, pieces and the contents of a square.

use vstd::prelude::*;

verus! {

/// One of the two sides. White moves towards row 0, black towards row 7.
#[derive(Debug, Clone, Copy, PartialEq, Eq, Structural)]
pub enum Jogador {
    Branco,
    Preto,
}

impl Jogador {
    /// The other side.
    pub open spec fn outro(self) -> Jogador {
        match self {
            Jogador::Branco => Jogador::Preto,
            Jogador::Preto => Jogador::Branco,
        }
    }

    /// The row on which a man of this side is promoted.
    pub open spec fn ultima_linha(self) -> int {
        match self {
            Jogador::Branco => 0,
            Jogador::Preto => 7,
        }
    }

    /// The row on which a man of this side is promoted.
    pub fn linha_de_promocao(self) -> (r: i32)
        ensures
            r == self.ultima_linha(),
    {
        match self {
            Jogador::Branco => 0,
            Jogador::Preto => 7,
        }
    }

    #[verifier::when_used_as_spec(outro)]
    pub fn adversario(self) -> (r: Jogador)
        ensures
            r == self.outro(),
    {
        match self {
            Jogador::Branco => Jogador::Preto,
            Jogador::Preto => Jogador::Branco,
        }
    }
}

/// A man or a king of either colour.
#[derive(Debug, Clone, Copy, PartialEq, Eq, Structural)]
pub enum Peca {
    Branca,
    DamaBranca,
    Preta,
    DamaPreta,
}

impl Peca {
    pub open spec fn branca(self) -> bool {
        self is Branca || self is DamaBranca
    }

    pub open spec fn preta(self) -> bool {
        self is Preta || self is DamaPreta
    }

    pub open spec fn coroada(self) -> bool {
        self is DamaBranca || self is DamaPreta
    }

    /// The side that owns the piece.
    pub open spec fn dono(self) -> Jogador {
        if self.branca() {
            Jogador::Branco
        } else {
            Jogador::Preto
        }
    }

    /// The king of the same colour.
    pub open spec fn promovida(self) -> Peca {
        if self.branca() {
            Peca::DamaBranca
        } else {
            Peca::DamaPreta
        }
    }

    /// Promotion keeps the colour and gives a king; done to a king, or done
    /// again, it changes nothing.
    pub proof fn lei_promovida(self)
        ensures
            self.promovida().coroada(),
            self.promovida().dono() == self.dono(),
            self.promovida().promovida() == self.promovida(),
            self.coroada() ==> self.promovida() == self,
            self.branca() != self.preta(),
    {
    }

    #[verifier::when_used_as_spec(branca)]
    pub fn e_branca(self) -> (b: bool)
        ensures
            b == self.branca(),
    {
        matches!(self, Peca::Branca | Peca::DamaBranca)
    }

    #[verifier::when_used_as_spec(preta)]
    pub fn e_preta(self) -> (b: bool)
        ensures
            b == self.preta(),
    {
        matches!(self, Peca::Preta | Peca::DamaPreta)
    }

    #[verifier::when_used_as_spec(coroada)]
    pub fn e_dama(self) -> (b: bool)
        ensures
            b == self.coroada(),
    {
        matches!(self, Peca::DamaBranca | Peca::DamaPreta)
    }

    #[verifier::when_used_as_spec(dono)]
    pub fn cor(self) -> (r: Jogador)
        ensures
            r == self.dono(),
    {
        if self.e_branca() {
            Jogador::Branco
        } else {
            Jogador::Preto
        }
    }

    /// Promotion: a man becomes the king of its colour, a king stays as it is.
    #[verifier::when_used_as_spec(promovida)]
    pub fn dama(self) -> (r: Peca)
        ensures
            r == self.promovida(),
    {
        if self.e_branca() {
            Peca::DamaBranca
        } else {
            Peca::DamaPreta
        }
    }
}

/// What a square holds.
#[derive(Debug, Clone, Copy, PartialEq, Eq, Structural)]
pub enum Casa {
    Ocupada(Peca),
    Vazia,
}

/// The square that a layout character stands for: lower case for men, upper
/// case for kings, `b` for white and `p` for black, `.` for an empty square.
pub open spec fn casa_do_caractere(ch: char) -> Option<Casa> {
    if ch == 'p' {
        Some(Casa::Ocupada(Peca::Preta))
    } else if ch == 'b' {
        Some(Casa::Ocupada(Peca::Branca))
    } else if ch == 'P' {
        Some(Casa::Ocupada(Peca::DamaPreta))
    } else if ch == 'B' {
        Some(Casa::Ocupada(Peca::DamaBranca))
    } else if ch == '.' {
        Some(Casa::Vazia)
    } else {
        None
    }
}

impl Casa {
    pub open spec fn conteudo(self) -> Option<Peca> {
        match self {
            Casa::Ocupada(p) => Some(p),
            Casa::Vazia => None,
        }
    }

    /// The glyph that shows the square: `x` and `o` for the white and the
    /// black man, `X` and `O` for the kings, `.` for an empty square.
    pub open spec fn simbolo(self) -> char {
        match self {
            Casa::Ocupada(Peca::Branca) => 'x',
            Casa::Ocupada(Peca::Preta) => 'o',
            Casa::Ocupada(Peca::DamaBranca) => 'X',
            Casa::Ocupada(Peca::DamaPreta) => 'O',
            Casa::Vazia => '.',
        }
    }

    #[verifier::when_used_as_spec(conteudo)]
    pub fn peca(self) -> (r: Option<Peca>)
        ensures
            r == self.conteudo(),
    {
        match self {
            Casa::Ocupada(p) => Some(p),
            Casa::Vazia => None,
        }
    }

    pub fn e_vazia(self) -> (b: bool)
        ensures
            b == (self is Vazia),
    {
        match self {
            Casa::Ocupada(_) => false,
            Casa::Vazia => true,
        }
    }

    /// Reads one character of a layout.
    pub fn do_caractere(ch: char) -> (r: Option<Casa>)
        ensures
            r == casa_do_caractere(ch),
    {
        if ch == 'p' {
            Some(Casa::Ocupada(Peca::Preta))
        } else if ch == 'b' {
            Some(Casa::Ocupada(Peca::Branca))
        } else if ch == 'P' {
            Some(Casa::Ocupada(Peca::DamaPreta))
        } else if ch == 'B' {
            Some(Casa::Ocupada(Peca::DamaBranca))
        } else if ch == '.' {
            Some(Casa::Vazia)
        } else {
            None
        }
    }

    #[verifier::when_used_as_spec(simbolo)]
    pub fn glifo(self) -> (r: char)
        ensures
            r == self.simbolo(),
    {
        match self {
            Casa::Ocupada(Peca::Branca) => 'x',
            Casa::Ocupada(Peca::Preta) => 'o',
            Casa::Ocupada(Peca::DamaBranca) => 'X',
            Casa::Ocupada(Peca::DamaPreta) => 'O',
            Casa::Vazia => '.',
        }
    }
}

} // verus!
