//! Squares of the board and the arithmetic of diagonal steps.

use vstd::prelude::*;

verus! {

/// A square of the board, named by column `x` and row `y`, or a displacement
/// between two squares. Row 0 is the far edge and row 7 the near edge. Values
/// off the board can be held; `e_valida` tells whether a value is a square.
#[derive(Clone, Copy, PartialEq, Eq, Structural, Debug)]
pub struct Coord {
    pub x: i32,
    pub y: i32,
}

/// Whether column `x` and row `y` name a square of the board.
pub open spec fn no_tabuleiro(x: int, y: int) -> bool {
    0 <= x <= 7 && 0 <= y <= 7
}

/// Whether (`dx`, `dy`) is one step along a diagonal.
pub open spec fn passo_diagonal(dx: int, dy: int) -> bool {
    (dx == 1 || dx == -1) && (dy == 1 || dy == -1)
}

/// Shorthand constructor.
pub fn c(x: i32, y: i32) -> (r: Coord)
    ensures
        r == (Coord { x, y }),
{
    Coord { x, y }
}

impl Coord {
    /// Both axes lie in 0..=7.
    pub open spec fn valida(self) -> bool {
        no_tabuleiro(self.x as int, self.y as int)
    }

    /// The value `dx` columns and `dy` rows away. Meaningful while the sums
    /// fit in `i32`.
    pub open spec fn desl(self, dx: int, dy: int) -> Coord {
        Coord { x: (self.x + dx) as i32, y: (self.y + dy) as i32 }
    }

    /// Component-wise sum.
    pub open spec fn soma(self, outro: Coord) -> Coord {
        self.desl(outro.x as int, outro.y as int)
    }

    /// The displacement that leads from `self` to `destino`.
    pub open spec fn ate(self, destino: Coord) -> Coord {
        Coord { x: (destino.x - self.x) as i32, y: (destino.y - self.y) as i32 }
    }

    /// Sign of an integer: -1, 0 or 1.
    pub open spec fn sinal(v: int) -> int {
        if v > 0 {
            1
        } else if v < 0 {
            -1
        } else {
            0
        }
    }

    /// The unit step that points the same way as the displacement `self`.
    pub open spec fn direcao(self) -> Coord {
        Coord { x: Self::sinal(self.x as int) as i32, y: Self::sinal(self.y as int) as i32 }
    }

    /// The displacement `self` taken `k` times.
    pub open spec fn multiplo(self, k: i32) -> Coord {
        Coord { x: (self.x * k) as i32, y: (self.y * k) as i32 }
    }

    /// One step along a diagonal.
    pub open spec fn diagonal(self) -> bool {
        passo_diagonal(self.x as int, self.y as int)
    }

    /// The diagonal neighbours of `self` in row `y + dy` that lie on the
    /// board, the left one first.
    pub open spec fn vizinhas_na_linha(self, dy: int) -> Seq<Coord> {
        let esquerda: Seq<Coord> = if no_tabuleiro(self.x - 1, self.y + dy) {
            seq![self.desl(-1, dy)]
        } else {
            seq![]
        };
        let direita: Seq<Coord> = if no_tabuleiro(self.x + 1, self.y + dy) {
            seq![self.desl(1, dy)]
        } else {
            seq![]
        };
        esquerda + direita
    }

    /// The neighbours one row towards the far edge.
    pub open spec fn frente(self) -> Seq<Coord> {
        self.vizinhas_na_linha(-1)
    }

    /// The neighbours one row towards the near edge.
    pub open spec fn tras(self) -> Seq<Coord> {
        self.vizinhas_na_linha(1)
    }

    /// The diagonal neighbours of `self` that lie on the board: those in
    /// front, then those behind.
    pub open spec fn vizinhas(self) -> Seq<Coord> {
        self.frente() + self.tras()
    }

    /// The squares met when walking from `self` in steps of (`dx`, `dy`), up
    /// to the last one before the walk leaves the board. `self` is not among
    /// them.
    pub open spec fn raio(self, dx: int, dy: int) -> Seq<Coord>
        decreases
            (if dx == 1 {
                8 - self.x
            } else {
                self.x + 1
            }),
    {
        if passo_diagonal(dx, dy) && no_tabuleiro(self.x + dx, self.y + dy) {
            seq![self.desl(dx, dy)] + self.desl(dx, dy).raio(dx, dy)
        } else {
            seq![]
        }
    }

    /// The four rays from `self`, in the order (1,1), (-1,-1), (1,-1), (-1,1).
    pub open spec fn raios(self) -> Seq<Coord> {
        self.raio(1, 1) + self.raio(-1, -1) + self.raio(1, -1) + self.raio(-1, 1)
    }

    /// `v` lies one column and one row away from `self`.
    pub open spec fn junto_a(self, v: Coord) -> bool {
        (v.x - self.x == 1 || self.x - v.x == 1) && (v.y - self.y == 1 || self.y - v.y == 1)
    }

    /// Each diagonal neighbour is a square of the board one column and one
    /// row away.
    pub proof fn lema_vizinhas(self, i: int)
        requires
            0 <= i < self.vizinhas().len(),
        ensures
            self.vizinhas()[i].valida(),
            self.junto_a(self.vizinhas()[i]),
    {
    }

    /// No square is listed twice among the diagonal neighbours.
    pub proof fn lema_vizinhas_distintas(self, i: int, k: int)
        requires
            0 <= i < k < self.vizinhas().len(),
        ensures
            self.vizinhas()[i] != self.vizinhas()[k],
    {
    }

    /// The neighbours in front and the neighbours behind are, together, the
    /// diagonal neighbours: the squares of the board one column and one row
    /// away. Each of the two rows holds at most two of them, and for a
    /// square of the board it holds none only where the square lies on the
    /// edge that the row would be beyond: row 0 for those in front, row 7
    /// for those behind.
    pub proof fn lei_diagonais(self)
        ensures
            self.vizinhas() == self.frente() + self.tras(),
            self.vizinhas().to_set() == self.frente().to_set().union(self.tras().to_set()),
            forall|v: Coord|
                self.vizinhas().contains(v) <==> v.valida() && self.junto_a(v),
            forall|v: Coord|
                self.frente().contains(v) <==> v.valida() && self.junto_a(v) && v.y == self.y - 1,
            forall|v: Coord|
                self.tras().contains(v) <==> v.valida() && self.junto_a(v) && v.y == self.y + 1,
            self.frente().len() <= 2,
            self.tras().len() <= 2,
            self.valida() ==> (self.frente().len() == 0 <==> self.y == 0),
            self.valida() ==> (self.tras().len() == 0 <==> self.y == 7),
    {
        let f = self.frente();
        let t = self.tras();
        assert(self.vizinhas().to_set() =~= f.to_set().union(t.to_set())) by {
            assert forall|v: Coord| self.vizinhas().to_set().contains(v) <==> f.to_set().union(
                t.to_set(),
            ).contains(v) by {
                if self.vizinhas().contains(v) {
                    let k = choose|k: int| 0 <= k < self.vizinhas().len() && self.vizinhas()[k] == v;
                    if k < f.len() {
                        assert(f[k] == v);
                    } else {
                        assert(t[k - f.len()] == v);
                    }
                }
                if f.contains(v) {
                    let k = choose|k: int| 0 <= k < f.len() && f[k] == v;
                    assert(self.vizinhas()[k] == v);
                }
                if t.contains(v) {
                    let k = choose|k: int| 0 <= k < t.len() && t[k] == v;
                    assert(self.vizinhas()[k + f.len()] == v);
                }
            }
        }
        assert forall|v: Coord| f.contains(v) <==> v.valida() && self.junto_a(v) && v.y == self.y
            - 1 by {
            self.lema_linha(-1, v);
        }
        assert forall|v: Coord| t.contains(v) <==> v.valida() && self.junto_a(v) && v.y == self.y
            + 1 by {
            self.lema_linha(1, v);
        }
        assert forall|v: Coord| self.vizinhas().contains(v) <==> v.valida() && self.junto_a(
            v,
        ) by {
            assert(self.vizinhas().to_set().contains(v) <==> f.to_set().contains(v)
                || t.to_set().contains(v));
        }
    }

    /// The number of diagonal steps of (`dx`, `dy`) that can be made from
    /// `self` before the board ends.
    pub open spec fn alcance(self, dx: int, dy: int) -> int {
        let na_coluna = if dx == 1 {
            7 - self.x
        } else {
            self.x as int
        };
        let na_linha = if dy == 1 {
            7 - self.y
        } else {
            self.y as int
        };
        if na_coluna < na_linha {
            na_coluna
        } else {
            na_linha
        }
    }

    /// A ray from a square of the board runs in a straight line down to the
    /// edge: it has as many squares as steps can be made before the nearer
    /// edge in its direction, and its square number `k` lies `k + 1` steps
    /// from `self`.
    pub proof fn lei_raio(self, dx: int, dy: int)
        requires
            self.valida(),
            passo_diagonal(dx, dy),
        ensures
            self.raio(dx, dy).len() == self.alcance(dx, dy),
            forall|k: int|
                0 <= k < self.raio(dx, dy).len() ==> #[trigger] self.raio(dx, dy)[k] == self.desl(
                    (k + 1) * dx,
                    (k + 1) * dy,
                ) && self.raio(dx, dy)[k].valida(),
        decreases self.alcance(dx, dy),
    {
        if no_tabuleiro(self.x + dx, self.y + dy) {
            let seguinte = self.desl(dx, dy);
            seguinte.lei_raio(dx, dy);
            assert forall|k: int| 0 <= k < self.raio(dx, dy).len() implies #[trigger] self.raio(
                dx,
                dy,
            )[k] == self.desl((k + 1) * dx, (k + 1) * dy) && self.raio(dx, dy)[k].valida() by {
                if k > 0 {
                    assert(self.raio(dx, dy)[k] == seguinte.raio(dx, dy)[k - 1]);
                    assert((k + 1) * dx == k * dx + dx && (k + 1) * dy == k * dy + dy)
                        by (nonlinear_arith);
                }
            }
        }
    }

    /// The neighbours in row `y + dy` are the squares of the board in that
    /// row that lie one column away.
    pub proof fn lema_linha(self, dy: int, v: Coord)
        requires
            dy == 1 || dy == -1,
        ensures
            self.vizinhas_na_linha(dy).contains(v) <==> v.valida() && self.junto_a(v) && v.y
                == self.y + dy,
    {
        let s = self.vizinhas_na_linha(dy);
        if s.contains(v) {
            let k = choose|k: int| 0 <= k < s.len() && s[k] == v;
        }
        if v.valida() && self.junto_a(v) && v.y == self.y + dy {
            if v.x == self.x - 1 {
                assert(s[0] == v);
            } else {
                assert(s[s.len() - 1] == v);
            }
        }
    }

    #[verifier::when_used_as_spec(valida)]
    pub fn e_valida(self) -> (b: bool)
        ensures
            b == self.valida(),
    {
        0 <= self.x && self.x <= 7 && 0 <= self.y && self.y <= 7
    }

    #[verifier::when_used_as_spec(diagonal)]
    pub fn e_diagonal(self) -> (b: bool)
        ensures
            b == self.diagonal(),
    {
        (self.x == 1 || self.x == -1) && (self.y == 1 || self.y == -1)
    }

    /// `self + outro`.
    #[verifier::when_used_as_spec(soma)]
    pub fn mais(self, outro: Coord) -> (r: Coord)
        requires
            i32::MIN <= self.x + outro.x <= i32::MAX,
            i32::MIN <= self.y + outro.y <= i32::MAX,
        ensures
            r == self.soma(outro),
    {
        Coord { x: self.x + outro.x, y: self.y + outro.y }
    }

    /// The displacement from `self` to `destino`: `destino - self`.
    #[verifier::when_used_as_spec(ate)]
    pub fn distancia(self, destino: Coord) -> (r: Coord)
        requires
            i32::MIN <= destino.x - self.x <= i32::MAX,
            i32::MIN <= destino.y - self.y <= i32::MAX,
        ensures
            r == self.ate(destino),
    {
        Coord { x: destino.x - self.x, y: destino.y - self.y }
    }

    /// Each axis reduced to its sign.
    #[verifier::when_used_as_spec(direcao)]
    pub fn normal(self) -> (r: Coord)
        ensures
            r == self.direcao(),
    {
        let x: i32 = if self.x > 0 {
            1
        } else if self.x < 0 {
            -1
        } else {
            0
        };
        let y: i32 = if self.y > 0 {
            1
        } else if self.y < 0 {
            -1
        } else {
            0
        };
        Coord { x, y }
    }

    /// Each axis multiplied by `k`.
    #[verifier::when_used_as_spec(multiplo)]
    pub fn vezes(self, k: i32) -> (r: Coord)
        requires
            i32::MIN <= self.x * k <= i32::MAX,
            i32::MIN <= self.y * k <= i32::MAX,
        ensures
            r == self.multiplo(k),
    {
        Coord { x: self.x * k, y: self.y * k }
    }

    /// The squares diagonally adjacent to `self` in row `y + dy`.
    fn diagonais_na_linha(self, dy: i32) -> (r: Vec<Coord>)
        requires
            dy == 1 || dy == -1,
        ensures
            r@ == self.vizinhas_na_linha(dy as int),
    {
        let mut diagonais: Vec<Coord> = Vec::new();
        if self.y < -1 || self.y > 8 || self.x < -1 || self.x > 8 {
            return diagonais;
        }
        let y: i32 = self.y + dy;
        if y < 0 || y > 7 {
            return diagonais;
        }
        if self.x > 0 {
            diagonais.push(c(self.x - 1, y));
        }
        if self.x < 7 {
            diagonais.push(c(self.x + 1, y));
        }
        diagonais
    }

    /// The squares one step ahead on either diagonal, towards row 0.
    pub fn diagonais_da_frente(self) -> (r: Vec<Coord>)
        ensures
            r@ == self.frente(),
    {
        self.diagonais_na_linha(-1)
    }

    /// The squares one step back on either diagonal, towards row 7.
    pub fn diagonais_de_tras(self) -> (r: Vec<Coord>)
        ensures
            r@ == self.tras(),
    {
        self.diagonais_na_linha(1)
    }

    /// The squares one step away on any diagonal: those in front, then those
    /// behind.
    pub fn diagonais_comiveis(self) -> (r: Vec<Coord>)
        ensures
            r@ == self.vizinhas(),
    {
        let mut diagonais = self.diagonais_da_frente();
        let mut atras = self.diagonais_de_tras();
        diagonais.append(&mut atras);
        diagonais
    }

    /// The squares of one ray from `self`.
    pub fn diagonal_ate_a_borda(self, dir: Coord) -> (r: Vec<Coord>)
        requires
            dir.diagonal(),
        ensures
            r@ == self.raio(dir.x as int, dir.y as int),
    {
        let mut casas: Vec<Coord> = Vec::new();
        let mut atual = self;
        loop
            invariant
                dir.diagonal(),
                casas@ + atual.raio(dir.x as int, dir.y as int) == self.raio(dir.x as int, dir.y as int),
            ensures
                casas@ == self.raio(dir.x as int, dir.y as int),
            decreases
                (if dir.x == 1 {
                    8 - atual.x
                } else {
                    atual.x + 1
                }),
        {
            if atual.x < -1 || atual.x > 8 || atual.y < -1 || atual.y > 8 {
                break;
            }
            let seguinte = atual.mais(dir);
            if !seguinte.e_valida() {
                break;
            }
            proof {
                assert(casas@.push(seguinte) + seguinte.raio(dir.x as int, dir.y as int)
                    =~= casas@ + atual.raio(dir.x as int, dir.y as int));
            }
            casas.push(seguinte);
            atual = seguinte;
        }
        casas
    }

    /// Every square that shares a diagonal with `self`, ray by ray, each ray
    /// read outwards from `self`.
    pub fn diagonais_da_rainha(self) -> (r: Vec<Coord>)
        ensures
            r@ == self.raios(),
    {
        let mut diagonais = self.diagonal_ate_a_borda(c(1, 1));
        let mut raio = self.diagonal_ate_a_borda(c(-1, -1));
        diagonais.append(&mut raio);
        let mut raio = self.diagonal_ate_a_borda(c(1, -1));
        diagonais.append(&mut raio);
        let mut raio = self.diagonal_ate_a_borda(c(-1, 1));
        diagonais.append(&mut raio);
        diagonais
    }
}

} // verus!
