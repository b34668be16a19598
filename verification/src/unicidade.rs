//! Origin and destination name a move: the moves that may be submitted and
//! lead from one square to another are one and the same.

use crate::coord::Coord;
use crate::jogada::Jogada;
use crate::peca::{Casa, Peca};
use crate::cadeias::{lema_mais_longas, lema_mais_uma_captura, nao_vazia};
use crate::regras::{direcao, todas_as_casas, Posicao};
use crate::seqs::{
    lema_achatado_ordem, lema_achatado_posicao, lema_filtro_elemento, lema_filtro_igual,
    lema_filtro_ordem, lema_quatro_partes,
};
use vstd::prelude::*;

verus! {

/// `q` lies `t` steps of the diagonal direction `d` away from `o`.
pub open spec fn a_passos(o: Coord, d: Coord, t: int, q: Coord) -> bool {
    q.x == o.x + (if d.x == 1 {
        t
    } else {
        -t
    }) && q.y == o.y + (if d.y == 1 {
        t
    } else {
        -t
    })
}

/// A number times a step of 1 or -1.
proof fn lema_multiplo(t: int, passo: int)
    requires
        passo == 1 || passo == -1,
    ensures
        t * passo == if passo == 1 {
            t
        } else {
            -t
        },
{
    assert(t * 1 == t && t * (-1) == -t) by (nonlinear_arith);
}

impl Posicao {
    /// Square number `k` of the walk of a king from `o` lies `k + 1` steps
    /// from `o`.
    pub proof fn lema_destino_do_trilho(self, o: Coord, d: Coord, k: int)
        requires
            o.valida(),
            d.diagonal(),
            0 <= k < self.trilho(o.soma(d), d).len(),
        ensures
            a_passos(o, d, k + 1, self.trilho(o.soma(d), d)[k]),
    {
        self.lei_trilho_em_linha(o.soma(d), d);
        lema_multiplo(k, d.x as int);
        lema_multiplo(k, d.y as int);
    }

    /// Landing square number `k` of a king from `o` lies beyond the jumped
    /// piece, `k + 2` steps further than the free squares before the piece.
    pub proof fn lema_destino_do_pouso(self, o: Coord, d: Coord, k: int)
        requires
            o.valida(),
            d.diagonal(),
            0 <= k < self.pousos(o, d).len(),
        ensures
            a_passos(o, d, self.trilho(o.soma(d), d).len() + k + 2, self.pousos(o, d)[k]),
    {
        let n = self.trilho(o.soma(d), d).len() as int;
        let b = self.obstaculo(o, d);
        self.lei_trilho_em_linha(o.soma(d), d);
        self.lei_trilho_em_linha(b.soma(d), d);
        lema_multiplo(n, d.x as int);
        lema_multiplo(n, d.y as int);
        lema_multiplo(k, d.x as int);
        lema_multiplo(k, d.y as int);
    }

    /// Two steps of a king lead to two squares.
    pub proof fn lema_passos_da_dama_distintos(self, o: Coord, m1: int, m2: int)
        requires
            o.valida(),
            0 <= m1 < m2 < self.movimentos_dama(o).len(),
        ensures
            self.movimentos_dama(o)[m1].destino() != self.movimentos_dama(o)[m2].destino(),
    {
        let partes = seq![
            self.movimentos_na_direcao(o, direcao(0)),
            self.movimentos_na_direcao(o, direcao(1)),
            self.movimentos_na_direcao(o, direcao(2)),
            self.movimentos_na_direcao(o, direcao(3)),
        ];
        lema_quatro_partes(partes[0], partes[1], partes[2], partes[3]);
        let r = lema_achatado_ordem(partes, m1, m2);
        assert(partes[r.0] == self.movimentos_na_direcao(o, direcao(r.0)));
        assert(partes[r.2] == self.movimentos_na_direcao(o, direcao(r.2)));
        self.lema_destino_do_trilho(o, direcao(r.0), r.1);
        self.lema_destino_do_trilho(o, direcao(r.2), r.3);
    }

    /// The place of a jump of a king among its jumps in one direction.
    pub proof fn lema_salto_da_dama(self, o: Coord, m: int) -> (r: (int, int))
        requires
            o.valida(),
            0 <= m < self.capturas_dama(o).len(),
        ensures
            0 <= r.0 < 4,
            0 <= r.1 < self.pousos(o, direcao(r.0)).len(),
            self.capturas_dama(o)[m] == Jogada::Capturar(
                o,
                self.obstaculo(o, direcao(r.0)),
                self.pousos(o, direcao(r.0))[r.1],
            ),
            a_passos(
                o,
                direcao(r.0),
                self.trilho(o.soma(direcao(r.0)), direcao(r.0)).len() + r.1 + 2,
                self.capturas_dama(o)[m].destino(),
            ),
    {
        let partes = seq![
            self.capturas_na_direcao(o, direcao(0)),
            self.capturas_na_direcao(o, direcao(1)),
            self.capturas_na_direcao(o, direcao(2)),
            self.capturas_na_direcao(o, direcao(3)),
        ];
        lema_quatro_partes(partes[0], partes[1], partes[2], partes[3]);
        let r = lema_achatado_posicao(partes, m);
        assert(partes[r.0] == self.capturas_na_direcao(o, direcao(r.0)));
        self.lema_destino_do_pouso(o, direcao(r.0), r.1);
        r
    }

    /// Two jumps of a king lead to two squares.
    #[verifier::rlimit(40)]
    pub proof fn lema_saltos_da_dama_distintos(self, o: Coord, m1: int, m2: int)
        requires
            o.valida(),
            0 <= m1 < m2 < self.capturas_dama(o).len(),
        ensures
            self.capturas_dama(o)[m1].destino() != self.capturas_dama(o)[m2].destino(),
    {
        let partes = seq![
            self.capturas_na_direcao(o, direcao(0)),
            self.capturas_na_direcao(o, direcao(1)),
            self.capturas_na_direcao(o, direcao(2)),
            self.capturas_na_direcao(o, direcao(3)),
        ];
        lema_quatro_partes(partes[0], partes[1], partes[2], partes[3]);
        let r = lema_achatado_ordem(partes, m1, m2);
        assert(partes[r.0] == self.capturas_na_direcao(o, direcao(r.0)));
        assert(partes[r.2] == self.capturas_na_direcao(o, direcao(r.2)));
        self.lema_destino_do_pouso(o, direcao(r.0), r.1);
        self.lema_destino_do_pouso(o, direcao(r.2), r.3);
    }

    /// A jump does not land on the square from which it starts.
    pub proof fn lema_salto_avanca(self, o: Coord, peca: Peca, i: int)
        requires
            o.valida(),
            0 <= i < self.capturas_imediatas(o, peca).len(),
        ensures
            self.capturas_imediatas(o, peca)[i].destino() != o,
    {
        if peca.coroada() {
            let r = self.lema_salto_da_dama(o, i);
        } else {
            lema_filtro_elemento(o.vizinhas(), self.comivel(o), i);
            let v = o.vizinhas().filter(self.comivel(o))[i];
            let k = choose|k: int| 0 <= k < o.vizinhas().len() && o.vizinhas()[k] == v;
            o.lema_vizinhas(k);
        }
    }

    /// Two immediate captures from one square lead to two squares.
    pub proof fn lema_capturas_imediatas_distintas(self, o: Coord, peca: Peca, m1: int, m2: int)
        requires
            o.valida(),
            0 <= m1 < m2 < self.capturas_imediatas(o, peca).len(),
        ensures
            self.capturas_imediatas(o, peca)[m1].destino() != self.capturas_imediatas(
                o,
                peca,
            )[m2].destino(),
    {
        if peca.coroada() {
            self.lema_saltos_da_dama_distintos(o, m1, m2);
        } else {
            self.lema_saltos_do_peao_distintos(o, m1, m2);
        }
    }

    /// Two jumps of a man lead to two squares.
    pub proof fn lema_saltos_do_peao_distintos(self, o: Coord, m1: int, m2: int)
        requires
            o.valida(),
            0 <= m1 < m2 < self.capturas_peao(o).len(),
        ensures
            self.capturas_peao(o)[m1].destino() != self.capturas_peao(o)[m2].destino(),
    {
        let r = lema_filtro_ordem(o.vizinhas(), self.comivel(o), m1, m2);
        o.lema_vizinhas(r.0);
        o.lema_vizinhas(r.1);
        o.lema_vizinhas_distintas(r.0, r.1);
    }

    /// Two steps of a man lead to two squares.
    pub proof fn lema_passos_do_peao_distintos(self, o: Coord, m1: int, m2: int)
        requires
            o.valida(),
            0 <= m1 < m2 < self.movimentos_peao(o).len(),
        ensures
            self.movimentos_peao(o)[m1].destino() != self.movimentos_peao(o)[m2].destino(),
    {
        let r = lema_filtro_ordem(self.avancos(o), self.e_livre(), m1, m2);
    }

    /// A walk that starts beyond `o` never comes to `o`, so what stands on
    /// `o` does not matter to it.
    pub proof fn lema_trilho_sem_origem(self, o: Coord, casa: Casa, c: Coord, d: Coord)
        requires
            d.diagonal(),
            if d.x == 1 {
                c.x > o.x
            } else {
                c.x < o.x
            },
        ensures
            self.com(o, casa).trilho(c, d) == self.trilho(c, d),
            self.com(o, casa).barreira(c, d) == self.barreira(c, d),
            self.barreira(c, d) != o,
        decreases
            (if d.x == 1 {
                8 - c.x
            } else {
                c.x + 1
            }),
    {
        if self.livre(c) {
            self.lema_trilho_sem_origem(o, casa, c.soma(d), d);
        }
    }

    /// The immediate captures of a piece from `o` are the same whatever
    /// stands on `o`.
    pub proof fn lema_capturas_sem_origem(self, o: Coord, casa: Casa, peca: Peca)
        requires
            o.valida(),
        ensures
            self.com(o, casa).capturas_imediatas(o, peca) == self.capturas_imediatas(o, peca),
    {
        let sem = self.com(o, casa);
        if peca.coroada() {
            assert forall|i: int| 0 <= i < 4 implies sem.capturas_na_direcao(o, direcao(i))
                == self.capturas_na_direcao(o, direcao(i)) by {
                let d = direcao(i);
                self.lema_trilho_sem_origem(o, casa, o.soma(d), d);
                let b = self.obstaculo(o, d);
                if self.inimiga(b) {
                    self.lei_trilho_em_linha(o.soma(d), d);
                    lema_multiplo(self.trilho(o.soma(d), d).len() as int, d.x as int);
                    self.lema_trilho_sem_origem(o, casa, b.soma(d), d);
                }
            }
            assert(sem.capturas_na_direcao(o, direcao(0)) == self.capturas_na_direcao(
                o,
                direcao(0),
            ));
            assert(sem.capturas_na_direcao(o, direcao(1)) == self.capturas_na_direcao(
                o,
                direcao(1),
            ));
            assert(sem.capturas_na_direcao(o, direcao(2)) == self.capturas_na_direcao(
                o,
                direcao(2),
            ));
            assert(sem.capturas_na_direcao(o, direcao(3)) == self.capturas_na_direcao(
                o,
                direcao(3),
            ));
        } else {
            assert forall|i: int| 0 <= i < o.vizinhas().len() implies sem.comivel(o)(
                #[trigger] o.vizinhas()[i],
            ) == self.comivel(o)(o.vizinhas()[i]) by {
                o.lema_vizinhas(i);
            }
            lema_filtro_igual(o.vizinhas(), sem.comivel(o), self.comivel(o));
        }
    }

    /// Mandatory capture on submission: where a piece of the side to move
    /// has a capture at hand, every move that may be submitted is a capture,
    /// and there is one.
    pub proof fn lei_captura_obrigatoria_ao_jogar(self, o: Coord)
        requires
            self.pode_capturar(o),
        ensures
            self.legais().len() > 0,
            forall|k: int| 0 <= k < self.legais().len() ==> (#[trigger] self.legais()[k]) is Capturar,
    {
        let sem = self.com(o, Casa::Vazia);
        let peca = self.casa(o)->0;
        let vazio = Seq::<Jogada>::empty();
        self.lema_capturas_sem_origem(o, Casa::Vazia, peca);
        let j = sem.capturas_imediatas(o, peca)[0];
        sem.lema_capturas_imediatas(o, peca, 0);
        lema_mais_uma_captura(vazio, j);
        assert(sem.cadeias(j.destino(), peca, vazio.push(j)).len() > 0);
        assert(sem.ramos(o, peca, vazio, 0).len() > 0);
        let todas = sem.cadeias(o, peca, vazio);
        lema_mais_longas(todas);
        let cadeia = self.capturas_de(o)[0];
        let n = choose|n: int| 0 <= n < todas.len() && todas[n] == cadeia;
        assert(sem.e_cadeia(o, peca, vazio)) by {
            reveal(Posicao::e_cadeia);
        }
        sem.lema_ramos(o, o, peca, vazio, 0, n);
        assert(self.cadeia_disponivel(o, cadeia));
        assert(self.disponivel(cadeia));
        self.lema_cadeias_de_todas();
        lema_mais_longas(self.cadeias_de_todas());
        assert forall|k: int| 0 <= k < self.legais().len() implies (
        #[trigger] self.legais()[k]) is Capturar by {
            self.lema_legais(k);
        }
    }

    /// Two steps of a piece lead to two squares.
    pub proof fn lema_movimentos_distintos(self, o: Coord, m1: int, m2: int)
        requires
            o.valida(),
            0 <= m1 < m2 < self.movimentos(o).len(),
        ensures
            self.movimentos(o)[m1].destino() != self.movimentos(o)[m2].destino(),
    {
        match self.casa(o) {
            Casa::Vazia => {},
            Casa::Ocupada(p) => {
                if p.coroada() {
                    self.lema_passos_da_dama_distintos(o, m1, m2);
                } else {
                    self.lema_passos_do_peao_distintos(o, m1, m2);
                }
            },
        }
    }

    /// No two steps that may be submitted lead from the same square to the
    /// same square.
    proof fn lema_passos_legais_distintos(self, o: Coord, d: Coord, n1: int, n2: int)
        requires
            0 <= n1 < n2 < self.todos_movimentos().flatten().len(),
            self.todos_movimentos().flatten()[n1].tem(o, d),
        ensures
            !self.todos_movimentos().flatten()[n2].tem(o, d),
    {
        let pecas = self.pecas_da_vez();
        let por_peca = pecas.map_values(self.movimentos_por_casa());
        let partes = self.todos_movimentos();
        let r = lema_achatado_ordem(partes, n1, n2);
        if r.0 < r.2 {
            let q = lema_filtro_ordem(por_peca, nao_vazia(), r.0, r.2);
            let t = lema_filtro_ordem(todas_as_casas(), self.e_propria(), q.0, q.1);
            self.lema_movimentos(pecas[q.0], r.1);
            self.lema_movimentos(pecas[q.1], r.3);
        } else {
            lema_filtro_elemento(por_peca, nao_vazia(), r.0);
            let q = choose|q: int| 0 <= q < por_peca.len() && por_peca[q] == partes[r.0];
            lema_filtro_elemento(todas_as_casas(), self.e_propria(), q);
            self.lema_movimentos_distintos(pecas[q], r.1, r.3);
        }
    }

    /// Origin and destination name a move: all the moves that may be
    /// submitted and lead from `o` to `d` are one and the same move.
    pub proof fn lei_jogada_unica(self, o: Coord, d: Coord, i: int, k: int)
        requires
            0 <= i < self.legais().len(),
            0 <= k < self.legais().len(),
            self.legais()[i].tem(o, d),
            self.legais()[k].tem(o, d),
        ensures
            self.legais()[i] == self.legais()[k],
    {
        if self.todas_capturas().len() > 0 {
            let ci = self.todas_capturas()[i];
            let ck = self.todas_capturas()[k];
            self.lema_todas_capturas(i);
            self.lema_todas_capturas(k);
            let oi = choose|oi: Coord| self.cadeia_disponivel(oi, ci);
            let ok = choose|ok: Coord| self.cadeia_disponivel(ok, ck);
            self.lema_primeiro_salto(oi, ci);
            self.lema_primeiro_salto(ok, ck);
            let sem = self.com(o, Casa::Vazia);
            let peca = self.casa(o)->0;
            let candidatas = sem.capturas_imediatas(o, peca);
            let a = choose|a: int| 0 <= a < candidatas.len() && candidatas[a] == ci[0];
            let b = choose|b: int| 0 <= b < candidatas.len() && candidatas[b] == ck[0];
            if a < b {
                sem.lema_capturas_imediatas_distintas(o, peca, a, b);
            } else if b < a {
                sem.lema_capturas_imediatas_distintas(o, peca, b, a);
            }
        } else if i < k {
            self.lema_passos_legais_distintos(o, d, i, k);
        } else if k < i {
            self.lema_passos_legais_distintos(o, d, k, i);
        }
    }
}

} // verus!
