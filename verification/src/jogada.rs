//! Moves and the outcome of submitting one.

use crate::coord::Coord;
use crate::peca::Jogador;
use vstd::prelude::*;

verus! {

/// A move of one piece.
#[derive(Debug, Clone, Copy, PartialEq, Eq, Structural)]
pub enum Jogada {
    /// (origin, destination): a step without capture.
    Mover(Coord, Coord),
    /// (origin, captured square, destination): one jump.
    Capturar(Coord, Coord, Coord),
}

impl View for Jogada {
    type V = Jogada;

    open spec fn view(&self) -> Jogada {
        *self
    }
}

impl DeepView for Jogada {
    type V = Jogada;

    open spec fn deep_view(&self) -> Jogada {
        *self
    }
}

impl Jogada {
    pub open spec fn spec_origem(&self) -> Coord {
        match *self {
            Jogada::Mover(o, _) => o,
            Jogada::Capturar(o, _, _) => o,
        }
    }

    pub open spec fn spec_destino(&self) -> Coord {
        match *self {
            Jogada::Mover(_, d) => d,
            Jogada::Capturar(_, _, d) => d,
        }
    }

    pub open spec fn spec_e_capturar(&self) -> bool {
        *self is Capturar
    }

    /// The captured square.
    pub open spec fn spec_captura(&self) -> Coord
        recommends
            *self is Capturar,
    {
        match *self {
            Jogada::Mover(_, _) => arbitrary(),
            Jogada::Capturar(_, c, _) => c,
        }
    }

    /// Whether the move leads from `origem` to `destino`.
    pub open spec fn spec_tem(&self, origem: Coord, destino: Coord) -> bool {
        self.spec_origem() == origem && self.spec_destino() == destino
    }

    #[verifier::when_used_as_spec(spec_origem)]
    pub fn origem(&self) -> (r: Coord)
        ensures
            r == self.spec_origem(),
    {
        match self {
            Jogada::Mover(o, _) => *o,
            Jogada::Capturar(o, _, _) => *o,
        }
    }

    #[verifier::when_used_as_spec(spec_destino)]
    pub fn destino(&self) -> (r: Coord)
        ensures
            r == self.spec_destino(),
    {
        match self {
            Jogada::Mover(_, d) => *d,
            Jogada::Capturar(_, _, d) => *d,
        }
    }

    /// The square of the piece that the jump takes.
    #[verifier::when_used_as_spec(spec_captura)]
    pub fn captura(&self) -> (r: Coord)
        requires
            self.spec_e_capturar(),
        ensures
            r == self.spec_captura(),
    {
        match self {
            Jogada::Mover(_, _) => unreached(),
            Jogada::Capturar(_, c, _) => *c,
        }
    }

    #[verifier::when_used_as_spec(spec_e_capturar)]
    pub fn e_capturar(&self) -> (b: bool)
        ensures
            b == self.spec_e_capturar(),
    {
        matches!(self, Jogada::Capturar(_, _, _))
    }

    #[verifier::when_used_as_spec(spec_tem)]
    pub fn tem(&self, origem: Coord, destino: Coord) -> (b: bool)
        ensures
            b == self.spec_tem(origem, destino),
    {
        match self {
            Jogada::Mover(o, d) | Jogada::Capturar(o, _, d) => *o == origem && *d == destino,
        }
    }
}

/// A chain of moves with the same values.
pub fn copiar_cadeia(cadeia: &Vec<Jogada>) -> (r: Vec<Jogada>)
    ensures
        r.deep_view() == cadeia.deep_view(),
{
    let mut copia: Vec<Jogada> = Vec::new();
    let mut i: usize = 0;
    while i < cadeia.len()
        invariant
            i <= cadeia.len(),
            copia.len() == i,
            forall|k: int| 0 <= k < i ==> copia@[k] == cadeia@[k],
        decreases cadeia.len() - i,
    {
        copia.push(cadeia[i]);
        i += 1;
    }
    assert(copia.deep_view() =~= cadeia.deep_view());
    copia
}

/// What came of a submitted move.
#[derive(Debug, Clone, Copy, PartialEq, Eq, Structural)]
pub enum JogadaResultado {
    /// No legal move matches: board and turn are as before.
    Falha,
    /// The move was made and the turn passed.
    Sucesso,
    /// The move was made and the same side captures again.
    Sequencia,
    /// The move was made and took the last piece of the other side; holds
    /// the winner.
    FimDoJogo(Jogador),
}

} // verus!
