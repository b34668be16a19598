//! The position as a mathematical value, and the rules of the game stated
//! over it.

use crate::coord::Coord;
use crate::jogada::Jogada;
use crate::peca::{casa_do_caractere, Casa, Jogador, Peca};
use vstd::prelude::*;

verus! {

/// A position: what every square of the board holds, and the side to move.
pub struct Posicao {
    pub casas: Map<Coord, Casa>,
    pub vez: Jogador,
}

/// The position that a layout of characters describes, white to move. Row `y`
/// of the layout is row `y` of the board.
pub open spec fn posicao_do_layout(layout: [[char; 8]; 8]) -> Posicao {
    Posicao {
        casas: Map::new(
            |c: Coord| c.valida(),
            |c: Coord| casa_do_caractere(layout[c.y as int][c.x as int]).unwrap(),
        ),
        vez: Jogador::Branco,
    }
}

/// Every character of the layout stands for a square.
pub open spec fn layout_valido(layout: [[char; 8]; 8]) -> bool {
    forall|y: int, x: int|
        0 <= y < 8 && 0 <= x < 8 ==> casa_do_caractere(#[trigger] layout[y][x]) is Some
}

impl Posicao {
    /// The squares of the board, and no other value, have a content.
    pub open spec fn bem_formada(self) -> bool {
        forall|c: Coord| self.casas.dom().contains(c) <==> c.valida()
    }

    /// What square `c` holds.
    pub open spec fn casa(self, c: Coord) -> Casa {
        self.casas[c]
    }

    /// `c` is a square of the board and nothing stands on it.
    pub open spec fn livre(self, c: Coord) -> bool {
        c.valida() && self.casas[c] is Vazia
    }

    /// The side to move owns `p`.
    pub open spec fn e_a_vez_de(self, p: Peca) -> bool {
        p.dono() == self.vez
    }

    /// `c` is a square of the board and a piece of the side to move stands on it.
    pub open spec fn propria(self, c: Coord) -> bool {
        c.valida() && (self.casas[c] matches Casa::Ocupada(p) && self.e_a_vez_de(p))
    }

    /// `c` is a square of the board and a piece of the other side stands on it.
    pub open spec fn inimiga(self, c: Coord) -> bool {
        c.valida() && (self.casas[c] matches Casa::Ocupada(p) && !self.e_a_vez_de(p))
    }

    /// The position with `casa` on square `c`.
    pub open spec fn com(self, c: Coord, casa: Casa) -> Posicao {
        Posicao { casas: self.casas.insert(c, casa), vez: self.vez }
    }

    /// The position with the other side to move.
    pub open spec fn passar_turno(self) -> Posicao {
        Posicao { casas: self.casas, vez: self.vez.outro() }
    }

    /// What stands on `origem` put on `destino`, and `origem` left empty.
    pub open spec fn mover_sem_checar(self, origem: Coord, destino: Coord) -> Posicao {
        self.com(destino, self.casa(origem)).com(origem, Casa::Vazia)
    }

    /// The position after a step or a single jump: the piece stands on the
    /// destination, the origin is empty and so is the captured square.
    pub open spec fn executar(self, j: Jogada) -> Posicao {
        match j {
            Jogada::Mover(o, d) => self.mover_sem_checar(o, d),
            Jogada::Capturar(o, c, d) => self.mover_sem_checar(o, d).com(c, Casa::Vazia),
        }
    }

    /// The test `livre` as a function of the square.
    pub open spec fn e_livre(self) -> spec_fn(Coord) -> bool {
        |c: Coord| self.livre(c)
    }

    /// The free squares met when walking from `c`, `c` included, in steps of
    /// `d`, up to the first value that is not a free square.
    pub open spec fn trilho(self, c: Coord, d: Coord) -> Seq<Coord>
        decreases
            (if d.x == 1 {
                8 - c.x
            } else {
                c.x + 1
            }),
    {
        if d.diagonal() && self.livre(c) {
            seq![c] + self.trilho(c.soma(d), d)
        } else {
            seq![]
        }
    }

    /// The value at which the walk from `c` in steps of `d` ends: the first
    /// one that is off the board or occupied.
    pub open spec fn barreira(self, c: Coord, d: Coord) -> Coord
        decreases
            (if d.x == 1 {
                8 - c.x
            } else {
                c.x + 1
            }),
    {
        if d.diagonal() && self.livre(c) {
            self.barreira(c.soma(d), d)
        } else {
            c
        }
    }

    /// The steps of a king from `o` in direction `d`: one to every free
    /// square before the first obstacle, nearest first.
    pub open spec fn movimentos_na_direcao(self, o: Coord, d: Coord) -> Seq<Jogada> {
        self.trilho(o.soma(d), d).map_values(passo_de(o))
    }

    /// The steps of a king from `o`, direction by direction.
    pub open spec fn movimentos_dama(self, o: Coord) -> Seq<Jogada> {
        self.movimentos_na_direcao(o, direcao(0)) + self.movimentos_na_direcao(o, direcao(1))
            + self.movimentos_na_direcao(o, direcao(2)) + self.movimentos_na_direcao(o, direcao(3))
    }

    /// The value at which the walk of a king from `o` in direction `d` ends:
    /// the first occupied square, or the first value off the board.
    pub open spec fn obstaculo(self, o: Coord, d: Coord) -> Coord {
        self.barreira(o.soma(d), d)
    }

    /// The squares on which a king from `o` may land after it jumps in
    /// direction `d`: the first obstacle is a piece of the other side, and
    /// these are the free squares right behind it, nearest first.
    pub open spec fn pousos(self, o: Coord, d: Coord) -> Seq<Coord> {
        if self.inimiga(self.obstaculo(o, d)) {
            self.trilho(self.obstaculo(o, d).soma(d), d)
        } else {
            seq![]
        }
    }

    /// The jumps of a king from `o` in direction `d`, one for each landing
    /// square.
    pub open spec fn capturas_na_direcao(self, o: Coord, d: Coord) -> Seq<Jogada> {
        self.pousos(o, d).map_values(salto_de(o, self.obstaculo(o, d)))
    }

    /// The jumps of a king from `o`, direction by direction.
    pub open spec fn capturas_dama(self, o: Coord) -> Seq<Jogada> {
        self.capturas_na_direcao(o, direcao(0)) + self.capturas_na_direcao(o, direcao(1))
            + self.capturas_na_direcao(o, direcao(2)) + self.capturas_na_direcao(o, direcao(3))
    }

    /// The squares towards which the man on `o` steps: those in front of a
    /// white man, those behind a black man. No square where `o` holds no man.
    pub open spec fn avancos(self, o: Coord) -> Seq<Coord> {
        match self.casa(o) {
            Casa::Ocupada(Peca::Branca) => o.frente(),
            Casa::Ocupada(Peca::Preta) => o.tras(),
            _ => seq![],
        }
    }

    /// The steps of the man on `o`: one to each free square ahead of it.
    pub open spec fn movimentos_peao(self, o: Coord) -> Seq<Jogada> {
        self.avancos(o).filter(self.e_livre()).map_values(passo_de(o))
    }

    /// Whether a man on `o` may jump over the neighbour `v`: a piece of the
    /// other side stands on `v` and the square behind it is free.
    pub open spec fn comivel(self, o: Coord) -> spec_fn(Coord) -> bool {
        |v: Coord| self.inimiga(v) && self.livre(pouso(o, v))
    }

    /// The single jumps of a man on `o`, over each diagonal neighbour that
    /// it may jump, in the order of `Coord::vizinhas`.
    pub open spec fn capturas_peao(self, o: Coord) -> Seq<Jogada> {
        o.vizinhas().filter(self.comivel(o)).map_values(salto_sobre(o))
    }

    /// The single jumps of a piece of kind `peca` that stands on `o`.
    pub open spec fn capturas_imediatas(self, o: Coord, peca: Peca) -> Seq<Jogada> {
        if peca.coroada() {
            self.capturas_dama(o)
        } else {
            self.capturas_peao(o)
        }
    }

    /// The steps of the piece on `o`, whatever its kind.
    pub open spec fn movimentos(self, o: Coord) -> Seq<Jogada>
        recommends
            self.casa(o) is Ocupada,
    {
        match self.casa(o) {
            Casa::Ocupada(p) => if p.coroada() {
                self.movimentos_dama(o)
            } else {
                self.movimentos_peao(o)
            },
            Casa::Vazia => seq![],
        }
    }

    /// What the man on `o` may play: its jumps if it has any, else its steps.
    pub open spec fn possiveis_peao(self, o: Coord) -> Seq<Jogada> {
        if self.capturas_peao(o).len() > 0 {
            self.capturas_peao(o)
        } else {
            self.movimentos_peao(o)
        }
    }

    /// What the king on `o` may play: its jumps if it has any, else its steps.
    pub open spec fn possiveis_dama(self, o: Coord) -> Seq<Jogada> {
        if self.capturas_dama(o).len() > 0 {
            self.capturas_dama(o)
        } else {
            self.movimentos_dama(o)
        }
    }

    /// The single moves at hand from square `o`: none from an empty square
    /// or with a piece of the side that is not to move.
    pub open spec fn possiveis(self, o: Coord) -> Seq<Jogada> {
        match self.casa(o) {
            Casa::Vazia => seq![],
            Casa::Ocupada(p) => if !self.e_a_vez_de(p) {
                seq![]
            } else if p.coroada() {
                self.possiveis_dama(o)
            } else {
                self.possiveis_peao(o)
            },
        }
    }

    /// The test `propria` as a function of the square.
    pub open spec fn e_propria(self) -> spec_fn(Coord) -> bool {
        |c: Coord| self.propria(c)
    }

    /// The squares that hold the pieces of the side to move, row by row.
    pub open spec fn pecas_da_vez(self) -> Seq<Coord> {
        todas_as_casas().filter(self.e_propria())
    }

    /// `possiveis` as a function of the square.
    pub open spec fn possiveis_de(self) -> spec_fn(Coord) -> Seq<Jogada> {
        |c: Coord| self.possiveis(c)
    }

    /// What each piece of the side to move may play by itself, piece by piece.
    pub open spec fn todas_sem_prioridade(self) -> Seq<Jogada> {
        self.pecas_da_vez().map_values(self.possiveis_de()).flatten()
    }

    /// The single moves at hand for the side to move: where any of its
    /// pieces can capture, the captures alone.
    pub open spec fn todas_possiveis(self) -> Seq<Jogada> {
        if ha_captura(self.todas_sem_prioridade()) {
            self.todas_sem_prioridade().filter(e_captura())
        } else {
            self.todas_sem_prioridade()
        }
    }

    /// No piece of the side that is not to move is left on the board.
    pub open spec fn sem_adversarios(self) -> bool {
        forall|c: Coord| !self.inimiga(c)
    }

    /// The test "holds exactly `casa`" as a function of the square.
    pub open spec fn e_igual_a(self, casa: Casa) -> spec_fn(Coord) -> bool {
        |c: Coord| self.casa(c) == casa
    }

    /// The squares of the board that hold exactly `casa`, row by row.
    pub open spec fn casas_com(self, casa: Casa) -> Seq<Coord> {
        todas_as_casas().filter(self.e_igual_a(casa))
    }

    /// The position with the piece on `d` crowned, if it is a man that
    /// stands on the last row of its way; else the position itself.
    pub open spec fn promover(self, d: Coord) -> Posicao {
        match self.casa(d) {
            Casa::Ocupada(p) => if d.y == p.dono().ultima_linha() {
                self.com(d, Casa::Ocupada(p.promovida()))
            } else {
                self
            },
            Casa::Vazia => self,
        }
    }

    /// `j` is a move that the rules allow to a piece of the side to move,
    /// taken by itself: it starts on a piece of that side, a step ends on a
    /// free square, and a jump goes over a piece of the other side and ends
    /// on a free square.
    pub open spec fn lance_legal(self, j: Jogada) -> bool {
        &&& self.propria(j.origem())
        &&& match j {
            Jogada::Mover(_, d) => self.livre(d),
            Jogada::Capturar(_, b, d) => self.inimiga(b) && self.livre(d),
        }
    }
}

/// Square number `i` of the board, counted row by row from (0, 0).
pub open spec fn casa_numero(i: int) -> Coord {
    Coord { x: (i % 8) as i32, y: (i / 8) as i32 }
}

/// The 64 squares of the board, row by row.
pub open spec fn todas_as_casas() -> Seq<Coord> {
    Seq::new(64, |i: int| casa_numero(i))
}

/// The square on which a piece from `o` lands when it jumps over its
/// neighbour `v`: as far behind `v` as `o` is before it.
pub open spec fn pouso(o: Coord, v: Coord) -> Coord {
    v.soma(o.ate(v))
}

/// The jump from `o` as a function of the neighbour that it jumps over.
pub open spec fn salto_sobre(o: Coord) -> spec_fn(Coord) -> Jogada {
    |v: Coord| Jogada::Capturar(o, v, pouso(o, v))
}

/// Whether one of the moves is a capture.
pub open spec fn ha_captura(jogadas: Seq<Jogada>) -> bool {
    exists|k: int| 0 <= k < jogadas.len() && (#[trigger] jogadas[k]).e_capturar()
}

/// The test "is a capture" as a function of the move.
pub open spec fn e_captura() -> spec_fn(Jogada) -> bool {
    |j: Jogada| j.e_capturar()
}

/// The four diagonal directions, in the order in which a king looks at them.
pub open spec fn direcao(i: int) -> Coord {
    if i == 0 {
        Coord { x: 1, y: 1 }
    } else if i == 1 {
        Coord { x: -1i32, y: -1i32 }
    } else if i == 2 {
        Coord { x: 1, y: -1i32 }
    } else {
        Coord { x: -1i32, y: 1 }
    }
}

/// The step from `o` as a function of its destination.
pub open spec fn passo_de(o: Coord) -> spec_fn(Coord) -> Jogada {
    |d: Coord| Jogada::Mover(o, d)
}

/// The jump from `o` over `comida` as a function of its destination.
pub open spec fn salto_de(o: Coord, comida: Coord) -> spec_fn(Coord) -> Jogada {
    |d: Coord| Jogada::Capturar(o, comida, d)
}

} // verus!
