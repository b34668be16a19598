//! What holds of the rules in every position.

use crate::cadeias::{
    capturas_distintas, encadeadas, ja_capturada, lema_limite_de_capturas, lema_maior_atingido,
    lema_maior_tamanho, lema_mais_longas, lema_mais_uma_captura, maior_tamanho, nao_vazia,
    primeira_com,
};
use crate::coord::Coord;
use crate::jogada::{Jogada, JogadaResultado};
use crate::peca::{Casa, Peca};
use crate::regras::{direcao, e_captura, ha_captura, passo_de, todas_as_casas, Posicao};
use crate::seqs::{
    lema_achatado, lema_achatado_posicao, lema_filtro_contem, lema_filtro_elemento,
    lema_parte_no_achatado,
};
use vstd::prelude::*;

verus! {

impl Posicao {
    /// Every step of a king in one direction starts on `o` and ends on a
    /// free square.
    pub proof fn lema_movimentos_na_direcao(self, o: Coord, d: Coord, k: int)
        requires
            0 <= k < self.movimentos_na_direcao(o, d).len(),
        ensures
            self.movimentos_na_direcao(o, d)[k] matches Jogada::Mover(a, b) && a == o
                && self.livre(b),
    {
        self.lema_trilho(o.soma(d), d, k);
    }

    /// Every step of a king starts on `o` and ends on a free square.
    pub proof fn lema_movimentos_dama(self, o: Coord, k: int)
        requires
            0 <= k < self.movimentos_dama(o).len(),
        ensures
            self.movimentos_dama(o)[k] matches Jogada::Mover(a, b) && a == o && self.livre(b),
    {
        let m0 = self.movimentos_na_direcao(o, direcao(0));
        let m1 = self.movimentos_na_direcao(o, direcao(1));
        let m2 = self.movimentos_na_direcao(o, direcao(2));
        if k < m0.len() {
            self.lema_movimentos_na_direcao(o, direcao(0), k);
        } else if k < m0.len() + m1.len() {
            self.lema_movimentos_na_direcao(o, direcao(1), k - m0.len());
        } else if k < m0.len() + m1.len() + m2.len() {
            self.lema_movimentos_na_direcao(o, direcao(2), k - m0.len() - m1.len());
        } else {
            self.lema_movimentos_na_direcao(o, direcao(3), k - m0.len() - m1.len() - m2.len());
        }
    }

    /// Every step of a man starts on `o` and ends on a free square.
    pub proof fn lema_movimentos_peao(self, o: Coord, k: int)
        requires
            0 <= k < self.movimentos_peao(o).len(),
        ensures
            self.movimentos_peao(o)[k] matches Jogada::Mover(a, b) && a == o && self.livre(b),
    {
        lema_filtro_elemento(self.avancos(o), self.e_livre(), k);
    }

    /// Every single move at hand from a square starts there and is allowed
    /// by the rules.
    pub proof fn lema_possiveis(self, o: Coord, k: int)
        requires
            o.valida(),
            0 <= k < self.possiveis(o).len(),
        ensures
            self.possiveis(o)[k].origem() == o,
            self.lance_legal(self.possiveis(o)[k]),
    {
        match self.casa(o) {
            Casa::Vazia => {},
            Casa::Ocupada(p) => {
                if p.coroada() {
                    if self.capturas_dama(o).len() > 0 {
                        self.lema_capturas_imediatas(o, p, k);
                    } else {
                        self.lema_movimentos_dama(o, k);
                    }
                } else {
                    if self.capturas_peao(o).len() > 0 {
                        self.lema_capturas_imediatas(o, p, k);
                    } else {
                        self.lema_movimentos_peao(o, k);
                    }
                }
            },
        }
    }

    /// Every single move at hand for the side to move is allowed by the
    /// rules.
    pub proof fn lema_todas_possiveis(self, k: int)
        requires
            0 <= k < self.todas_possiveis().len(),
        ensures
            self.lance_legal(self.todas_possiveis()[k]),
    {
        let j = self.todas_possiveis()[k];
        let todas = self.todas_sem_prioridade();
        if ha_captura(todas) {
            lema_filtro_elemento(todas, e_captura(), k);
        }
        assert(todas.contains(j));
        let n = choose|n: int| 0 <= n < todas.len() && todas[n] == j;
        let partes = self.pecas_da_vez().map_values(self.possiveis_de());
        lema_achatado(partes, n);
        let (i, m) = choose|i: int, m: int|
            0 <= i < partes.len() && 0 <= m < partes[i].len() && partes[i][m] == partes.flatten()[n];
        lema_filtro_elemento(todas_as_casas(), self.e_propria(), i);
        self.lema_possiveis(self.pecas_da_vez()[i], m);
    }

    /// A piece of the side to move stands on `o` and has a capture at hand.
    pub open spec fn pode_capturar(self, o: Coord) -> bool {
        self.propria(o) && self.capturas_imediatas(
            o,
            self.casa(o).conteudo().unwrap(),
        ).len() > 0
    }

    /// Mandatory capture, piece by piece: where the piece on `o` has a
    /// capture at hand, the single moves at hand from `o` are captures, and
    /// there is one.
    pub proof fn lei_captura_obrigatoria_da_peca(self, o: Coord)
        requires
            self.pode_capturar(o),
        ensures
            self.possiveis(o).len() > 0,
            forall|k: int|
                0 <= k < self.possiveis(o).len() ==> (#[trigger] self.possiveis(o)[k]).e_capturar(),
    {
        assert forall|k: int| 0 <= k < self.possiveis(o).len() implies (#[trigger] self.possiveis(
            o,
        )[k]).e_capturar() by {
            self.lema_capturas_imediatas(o, self.casa(o).conteudo().unwrap(), k);
        }
    }

    /// A piece of the side to move is one of `pecas_da_vez`, and its single
    /// moves are among those of the side before captures take precedence.
    pub proof fn lema_peca_da_vez(self, o: Coord, k: int)
        requires
            self.propria(o),
            0 <= k < self.possiveis(o).len(),
        ensures
            self.pecas_da_vez().contains(o),
            self.todas_sem_prioridade().contains(self.possiveis(o)[k]),
    {
        assert(todas_as_casas()[o.y * 8 + o.x] == o);
        lema_filtro_contem(todas_as_casas(), self.e_propria(), o);
        let pecas = self.pecas_da_vez();
        let i = choose|i: int| 0 <= i < pecas.len() && pecas[i] == o;
        let partes = pecas.map_values(self.possiveis_de());
        lema_parte_no_achatado(partes, i, k);
    }

    /// Mandatory capture, for the whole side: where any piece of the side to
    /// move has a capture at hand, the single moves at hand for the side are
    /// captures, and there is one.
    pub proof fn lei_captura_obrigatoria(self, o: Coord)
        requires
            self.pode_capturar(o),
        ensures
            self.todas_possiveis().len() > 0,
            forall|k: int|
                0 <= k < self.todas_possiveis().len() ==> (#[trigger] self.todas_possiveis()[k]).e_capturar(),
    {
        self.lei_captura_obrigatoria_da_peca(o);
        self.lema_peca_da_vez(o, 0);
        let j = self.possiveis(o)[0];
        let todas = self.todas_sem_prioridade();
        let n = choose|n: int| 0 <= n < todas.len() && todas[n] == j;
        assert(todas[n].e_capturar());
        assert(ha_captura(todas));
        lema_filtro_contem(todas, e_captura(), j);
        assert forall|k: int| 0 <= k < self.todas_possiveis().len() implies (
        #[trigger] self.todas_possiveis()[k]).e_capturar() by {
            lema_filtro_elemento(todas, e_captura(), k);
        }
    }

    /// Without a capture at hand for any piece, no single move at hand for
    /// the side is a capture.
    pub proof fn lei_sem_captura_so_passos(self)
        requires
            forall|o: Coord| !self.pode_capturar(o),
        ensures
            self.todas_possiveis() == self.todas_sem_prioridade(),
            forall|k: int|
                0 <= k < self.todas_possiveis().len() ==> (#[trigger] self.todas_possiveis()[k]) is Mover,
    {
        let todas = self.todas_sem_prioridade();
        let partes = self.pecas_da_vez().map_values(self.possiveis_de());
        assert forall|n: int| 0 <= n < todas.len() implies (#[trigger] todas[n]) is Mover by {
            lema_achatado(partes, n);
            let (i, m) = choose|i: int, m: int|
                0 <= i < partes.len() && 0 <= m < partes[i].len() && partes[i][m]
                    == partes.flatten()[n];
            lema_filtro_elemento(todas_as_casas(), self.e_propria(), i);
            let o = self.pecas_da_vez()[i];
            assert(!self.pode_capturar(o));
            let p = self.casa(o).conteudo().unwrap();
            if p.coroada() {
                self.lema_movimentos_dama(o, m);
            } else {
                self.lema_movimentos_peao(o, m);
            }
        }
        assert(!ha_captura(todas));
    }

    /// Promotion does nothing to a king, and nothing when it is done again.
    pub proof fn lei_promocao_repetida(self, d: Coord)
        requires
            self.bem_formada(),
            d.valida(),
        ensures
            self.promover(d).promover(d) == self.promover(d),
            (self.casa(d) matches Casa::Ocupada(p) && p.coroada()) ==> self.promover(d) == self,
    {
        assert(self.promover(d).promover(d).casas =~= self.promover(d).casas);
        assert((self.casa(d) matches Casa::Ocupada(p) && p.coroada()) ==> self.promover(d).casas
            =~= self.casas);
    }

    /// Every capture chain that the side may play has a jump and is at hand
    /// for one of its pieces.
    pub proof fn lema_todas_capturas(self, i: int)
        requires
            0 <= i < self.todas_capturas().len(),
        ensures
            self.todas_capturas()[i].len() > 0,
            self.disponivel(self.todas_capturas()[i]),
    {
        self.lei_cadeias_de_mesmo_tamanho();
    }

    /// The first jump of a chain at hand for the piece on `o` starts on `o`,
    /// goes over a piece of the other side and lands on a free square.
    pub proof fn lema_primeiro_salto(self, o: Coord, cadeia: Seq<Jogada>)
        requires
            self.cadeia_disponivel(o, cadeia),
        ensures
            cadeia[0].origem() == o,
            self.lance_legal(cadeia[0]),
            cadeia[0] is Capturar,
            self.com(o, Casa::Vazia).capturas_imediatas(o, self.casa(o)->0).contains(cadeia[0]),
    {
        let sem = self.com(o, Casa::Vazia);
        let peca = self.casa(o)->0;
        let k = choose|k: int| 0 <= k < self.capturas_de(o).len() && self.capturas_de(o)[k] == cadeia;
        self.lei_cadeias_da_peca(o, k);
        reveal(Posicao::e_cadeia);
        let candidatas = sem.capturas_imediatas(o, peca);
        assert(candidatas.contains(cadeia[0]));
        let i = choose|i: int| 0 <= i < candidatas.len() && candidatas[i] == cadeia[0];
        sem.lema_capturas_imediatas(o, peca, i);
        sem.lema_salto_avanca(o, peca, i);
    }

    /// Every move that may be submitted is allowed by the rules.
    pub proof fn lema_legais(self, k: int)
        requires
            0 <= k < self.legais().len(),
        ensures
            self.lance_legal(self.legais()[k]),
            self.todas_capturas().len() > 0 <==> self.legais()[k] is Capturar,
    {
        if self.todas_capturas().len() > 0 {
            self.lema_todas_capturas(k);
            let cadeia = self.todas_capturas()[k];
            let o = choose|o: Coord| self.cadeia_disponivel(o, cadeia);
            self.lema_primeiro_salto(o, cadeia);
        } else {
            let pecas = self.pecas_da_vez();
            let por_peca = pecas.map_values(self.movimentos_por_casa());
            let partes = self.todos_movimentos();
            let r = lema_achatado_posicao(partes, k);
            lema_filtro_elemento(por_peca, nao_vazia(), r.0);
            let q = choose|q: int| 0 <= q < por_peca.len() && por_peca[q] == partes[r.0];
            lema_filtro_elemento(todas_as_casas(), self.e_propria(), q);
            self.lema_movimentos(pecas[q], r.1);
        }
    }

    /// Every step of the piece on `o` starts on `o` and ends on a free
    /// square.
    pub proof fn lema_movimentos(self, o: Coord, k: int)
        requires
            0 <= k < self.movimentos(o).len(),
        ensures
            self.movimentos(o)[k] matches Jogada::Mover(a, b) && a == o && self.livre(b),
    {
        match self.casa(o) {
            Casa::Vazia => {},
            Casa::Ocupada(p) => {
                if p.coroada() {
                    self.lema_movimentos_dama(o, k);
                } else {
                    self.lema_movimentos_peao(o, k);
                }
            },
        }
    }

    /// A move that was made leaves the piece on its destination, of the
    /// colour that it had. A man that reached the last row of its way is a
    /// king from that very move on; any other piece is what it was.
    pub proof fn lei_promocao(self, o: Coord, d: Coord)
        requires
            self.bem_formada(),
            self.jogar(o, d).0 != JogadaResultado::Falha,
        ensures
            self.casa(o) is Ocupada,
            self.jogar(o, d).1.casa(d) == Casa::Ocupada(
                if d.y == self.casa(o)->0.dono().ultima_linha() {
                    self.casa(o)->0.promovida()
                } else {
                    self.casa(o)->0
                },
            ),
    {
        self.lema_jogada_escolhida(o, d);
    }

    /// The move that `jogar` plays is one of `legais`, is allowed by the
    /// rules and leads from `o` to `d`; both are squares of the board, and so
    /// is the captured square.
    pub proof fn lema_jogada_escolhida(self, o: Coord, d: Coord) -> (j: Jogada)
        requires
            primeira_com(self.legais(), o, d) is Some,
        ensures
            primeira_com(self.legais(), o, d) == Some(j),
            self.legais().contains(j),
            self.lance_legal(j),
            j.tem(o, d),
            self.propria(o),
            self.livre(d),
            j.e_capturar() ==> self.inimiga(j.captura()),
    {
        let j = primeira_com(self.legais(), o, d).unwrap();
        let k = lema_primeira_com(self.legais(), o, d);
        self.lema_legais(k);
        j
    }

    /// A submitted move fails just where none of `legais` leads from `o` to
    /// `d`, and then the position stays as it is.
    pub proof fn lei_jogada_recusada(self, o: Coord, d: Coord)
        ensures
            self.jogar(o, d).0 == JogadaResultado::Falha <==> forall|k: int|
                0 <= k < self.legais().len() ==> !(#[trigger] self.legais()[k]).tem(
                    o,
                    d,
                ),
            self.jogar(o, d).0 == JogadaResultado::Falha ==> self.jogar(o, d).1 == self,
    {
        lema_sem_primeira(self.legais(), o, d);
        if primeira_com(self.legais(), o, d) is Some {
            let k = lema_primeira_com(self.legais(), o, d);
        }
    }

    /// A move that was made empties its origin and the captured square,
    /// leaves every square that it does not name as it was, and keeps the
    /// board a board. The turn passes just where the outcome says so.
    pub proof fn lei_efeito_da_jogada(self, o: Coord, d: Coord)
        requires
            self.bem_formada(),
            self.jogar(o, d).0 != JogadaResultado::Falha,
        ensures
            self.jogar(o, d).1.bem_formada(),
            self.jogar(o, d).1.casa(o) == Casa::Vazia,
            primeira_com(self.legais(), o, d)->0.e_capturar() ==> self.jogar(o, d).1.casa(
                primeira_com(self.legais(), o, d)->0.captura(),
            ) == Casa::Vazia,
            forall|q: Coord|
                q.valida() && q != o && q != d && !(primeira_com(
                    self.legais(),
                    o,
                    d,
                )->0.e_capturar() && q == primeira_com(self.legais(), o, d)->0.captura())
                    ==> self.jogar(o, d).1.casa(q) == self.casa(q),
            self.jogar(o, d).1.vez == if self.jogar(o, d).0 == JogadaResultado::Sucesso {
                self.vez.outro()
            } else {
                self.vez
            },
            !primeira_com(self.legais(), o, d)->0.e_capturar() ==> self.jogar(o, d).0
                == JogadaResultado::Sucesso,
            self.jogar(o, d).0 matches JogadaResultado::FimDoJogo(ganhador) ==> ganhador
                == self.vez && self.jogar(o, d).1.sem_adversarios(),
    {
        self.lema_jogada_escolhida(o, d);
    }

    /// The maximum-chain rule on submission: a piece whose chains are all
    /// shorter than a chain at hand for the side may not move.
    pub proof fn lei_jogada_fora_da_cadeia_maxima(
        self,
        o: Coord,
        d: Coord,
        b: Coord,
        longa: Seq<Jogada>,
    )
        requires
            self.cadeia_disponivel(b, longa),
            forall|curta: Seq<Jogada>|
                self.cadeia_disponivel(o, curta) ==> curta.len() < longa.len(),
        ensures
            self.jogar(o, d) == (JogadaResultado::Falha, self),
    {
        if primeira_com(self.legais(), o, d) is Some {
            let k = lema_primeira_com(self.legais(), o, d);
            assert(self.disponivel(longa));
            self.lema_cadeias_de_todas();
            lema_mais_longas(self.cadeias_de_todas());
            assert(self.todas_capturas().len() > 0);
            let cadeia = self.todas_capturas()[k];
            self.lema_todas_capturas(k);
            let dono = choose|dono: Coord| self.cadeia_disponivel(dono, cadeia);
            self.lema_primeiro_salto(dono, cadeia);
            self.lei_cadeia_maxima(o, cadeia, b, longa);
            assert(self.todas_capturas().contains(cadeia));
        }
    }

    /// A step to a free square, followed by the step back, leaves every
    /// square as it was.
    pub proof fn lei_ida_e_volta(self, a: Coord, b: Coord)
        requires
            self.bem_formada(),
            a.valida(),
            self.livre(b),
        ensures
            self.executar(Jogada::Mover(a, b)).executar(Jogada::Mover(b, a)) == self,
    {
        assert(self.executar(Jogada::Mover(a, b)).executar(Jogada::Mover(b, a)).casas
            =~= self.casas);
    }

    /// A walk over free squares goes in a straight line: its square number
    /// `k` is free and lies `k` steps from the start, and the walk stops on
    /// the value one step further than its last square, which is not a free
    /// square.
    pub proof fn lei_trilho_em_linha(self, c: Coord, d: Coord)
        requires
            d.diagonal(),
        ensures
            self.trilho(c, d).len() <= 8,
            forall|k: int|
                0 <= k < self.trilho(c, d).len() ==> (#[trigger] self.trilho(c, d)[k]).x == c.x + k
                    * d.x && self.trilho(c, d)[k].y == c.y + k * d.y && self.livre(
                    self.trilho(c, d)[k],
                ),
            self.livre(c) ==> self.barreira(c, d).x == c.x + self.trilho(c, d).len() * d.x
                && self.barreira(c, d).y == c.y + self.trilho(c, d).len() * d.y,
            !self.livre(c) ==> self.barreira(c, d) == c && self.trilho(c, d).len() == 0,
            !self.livre(self.barreira(c, d)),
        decreases self.trilho(c, d).len(),
    {
        if self.livre(c) {
            let seguinte = c.soma(d);
            self.lei_trilho_em_linha(seguinte, d);
            let n = self.trilho(seguinte, d).len() as int;
            assert((n + 1) * d.x == n * d.x + d.x && (n + 1) * d.y == n * d.y + d.y)
                by (nonlinear_arith);
            assert forall|k: int| 0 <= k < self.trilho(c, d).len() implies (#[trigger] self.trilho(
                c,
                d,
            )[k]).x == c.x + k * d.x && self.trilho(c, d)[k].y == c.y + k * d.y && self.livre(
                self.trilho(c, d)[k],
            ) by {
                if k > 0 {
                    assert(self.trilho(c, d)[k] == self.trilho(seguinte, d)[k - 1]);
                    assert(k * d.x == (k - 1) * d.x + d.x && k * d.y == (k - 1) * d.y + d.y)
                        by (nonlinear_arith);
                }
            }
            if n > 0 {
                let ultimo = self.trilho(seguinte, d)[n - 1];
                assert(ultimo.x == seguinte.x + (n - 1) * d.x);
                assert((n - 1) * d.x == n * d.x - d.x) by (nonlinear_arith);
                assert(n <= 7) by {
                    assert(ultimo.valida());
                    if d.x == 1 {
                        assert(n * d.x == n) by (nonlinear_arith)
                            requires
                                d.x == 1,
                        ;
                    } else {
                        assert(n * d.x == -n) by (nonlinear_arith)
                            requires
                                d.x == -1,
                        ;
                    }
                }
            }
        }
    }

    /// Where every square of a ray from `o` is free, the walk along it goes
    /// down to the edge of the board.
    pub proof fn lema_trilho_ate_a_borda(self, o: Coord, d: Coord)
        requires
            -1 <= o.x <= 8 && -1 <= o.y <= 8,
            d.diagonal(),
            forall|k: int|
                0 <= k < o.raio(d.x as int, d.y as int).len() ==> self.livre(
                    #[trigger] o.raio(d.x as int, d.y as int)[k],
                ),
        ensures
            self.trilho(o.soma(d), d) == o.raio(d.x as int, d.y as int),
        decreases o.raio(d.x as int, d.y as int).len(),
    {
        let raio = o.raio(d.x as int, d.y as int);
        let seguinte = o.soma(d);
        if raio.len() > 0 {
            assert(self.livre(raio[0]));
            assert forall|k: int|
                0 <= k < seguinte.raio(d.x as int, d.y as int).len() implies self.livre(
                #[trigger] seguinte.raio(d.x as int, d.y as int)[k],
            ) by {
                assert(raio[k + 1] == seguinte.raio(d.x as int, d.y as int)[k]);
            }
            self.lema_trilho_ate_a_borda(seguinte, d);
        }
    }

    /// A king with nothing in its way steps to every square of its four
    /// diagonals, down to the edge of the board in each direction.
    pub proof fn lei_dama_em_diagonais_livres(self, o: Coord)
        requires
            o.valida(),
            forall|k: int| 0 <= k < o.raios().len() ==> self.livre(#[trigger] o.raios()[k]),
        ensures
            self.movimentos_dama(o) == o.raios().map_values(passo_de(o)),
    {
        let r0 = o.raio(1, 1);
        let r1 = o.raio(-1, -1);
        let r2 = o.raio(1, -1);
        let r3 = o.raio(-1, 1);
        assert forall|k: int| 0 <= k < r0.len() implies self.livre(#[trigger] r0[k]) by {
            assert(o.raios()[k] == r0[k]);
        }
        assert forall|k: int| 0 <= k < r1.len() implies self.livre(#[trigger] r1[k]) by {
            assert(o.raios()[r0.len() + k] == r1[k]);
        }
        assert forall|k: int| 0 <= k < r2.len() implies self.livre(#[trigger] r2[k]) by {
            assert(o.raios()[r0.len() + r1.len() + k] == r2[k]);
        }
        assert forall|k: int| 0 <= k < r3.len() implies self.livre(#[trigger] r3[k]) by {
            assert(o.raios()[r0.len() + r1.len() + r2.len() + k] == r3[k]);
        }
        self.lema_trilho_ate_a_borda(o, direcao(0));
        self.lema_trilho_ate_a_borda(o, direcao(1));
        self.lema_trilho_ate_a_borda(o, direcao(2));
        self.lema_trilho_ate_a_borda(o, direcao(3));
        assert(self.movimentos_dama(o) =~= o.raios().map_values(passo_de(o)));
    }

    /// The piece on `o` belongs to the side to move and `cadeia` is one of
    /// its longest capture chains, with at least one jump.
    pub open spec fn cadeia_disponivel(self, o: Coord, cadeia: Seq<Jogada>) -> bool {
        self.propria(o) && cadeia.len() > 0 && self.capturas_de(o).contains(cadeia)
    }

    /// `cadeia` is a chain at hand for some piece of the side to move.
    pub open spec fn disponivel(self, cadeia: Seq<Jogada>) -> bool {
        exists|o: Coord| self.cadeia_disponivel(o, cadeia)
    }

    /// The chains of all pieces of the side to move, before the longest are
    /// picked.
    pub open spec fn cadeias_de_todas(self) -> Seq<Seq<Jogada>> {
        self.pecas_da_vez().map_values(self.capturas_por_casa()).flatten().filter(nao_vazia())
    }

    /// The chains of all pieces are the chains at hand for some piece.
    pub proof fn lema_cadeias_de_todas(self)
        ensures
            forall|cadeia: Seq<Jogada>|
                self.cadeias_de_todas().contains(cadeia) <==> self.disponivel(cadeia),
    {
        let partes = self.pecas_da_vez().map_values(self.capturas_por_casa());
        assert forall|cadeia: Seq<Jogada>|
            self.cadeias_de_todas().contains(cadeia) implies self.disponivel(cadeia) by {
            let k = choose|k: int|
                0 <= k < self.cadeias_de_todas().len() && self.cadeias_de_todas()[k] == cadeia;
            lema_filtro_elemento(partes.flatten(), nao_vazia(), k);
            let n = choose|n: int| 0 <= n < partes.flatten().len() && partes.flatten()[n] == cadeia;
            lema_achatado(partes, n);
            let (i, m) = choose|i: int, m: int|
                0 <= i < partes.len() && 0 <= m < partes[i].len() && partes[i][m]
                    == partes.flatten()[n];
            lema_filtro_elemento(todas_as_casas(), self.e_propria(), i);
            assert(self.capturas_de(self.pecas_da_vez()[i])[m] == cadeia);
            assert(self.cadeia_disponivel(self.pecas_da_vez()[i], cadeia));
        }
        assert forall|cadeia: Seq<Jogada>|
            self.disponivel(cadeia) implies self.cadeias_de_todas().contains(cadeia) by {
            let o = choose|o: Coord| self.cadeia_disponivel(o, cadeia);
            assert(todas_as_casas()[o.y * 8 + o.x] == o);
            lema_filtro_contem(todas_as_casas(), self.e_propria(), o);
            let i = choose|i: int| 0 <= i < self.pecas_da_vez().len() && self.pecas_da_vez()[i] == o;
            let m = choose|m: int|
                0 <= m < self.capturas_de(o).len() && self.capturas_de(o)[m] == cadeia;
            lema_parte_no_achatado(partes, i, m);
            lema_filtro_contem(partes.flatten(), nao_vazia(), cadeia);
        }
    }

    /// All capture chains that the side may play have the same number of
    /// jumps, and each is a chain at hand for one of its pieces.
    pub proof fn lei_cadeias_de_mesmo_tamanho(self)
        ensures
            forall|i: int, k: int|
                0 <= i < self.todas_capturas().len() && 0 <= k < self.todas_capturas().len()
                    ==> (#[trigger] self.todas_capturas()[i]).len() == (
                #[trigger] self.todas_capturas()[k]).len(),
            forall|i: int|
                0 <= i < self.todas_capturas().len() ==> self.disponivel(
                    #[trigger] self.todas_capturas()[i],
                ),
    {
        lema_mais_longas(self.cadeias_de_todas());
        self.lema_cadeias_de_todas();
    }

    /// The maximum-chain rule: a chain that is shorter than another chain at
    /// hand, of the same piece or of another piece of the side, may not be
    /// played.
    pub proof fn lei_cadeia_maxima(self, a: Coord, curta: Seq<Jogada>, b: Coord, longa: Seq<Jogada>)
        requires
            self.cadeia_disponivel(a, curta),
            self.cadeia_disponivel(b, longa),
            curta.len() < longa.len(),
        ensures
            !self.todas_capturas().contains(curta),
    {
        let todas = self.cadeias_de_todas();
        self.lema_cadeias_de_todas();
        lema_mais_longas(todas);
        assert(self.disponivel(longa) && self.disponivel(curta));
        assert(todas.contains(longa));
        let k = choose|k: int| 0 <= k < todas.len() && todas[k] == longa;
        lema_maior_tamanho(todas, k);
        if self.todas_capturas().contains(curta) {
            let i = choose|i: int|
                0 <= i < self.todas_capturas().len() && self.todas_capturas()[i] == curta;
            assert(self.todas_capturas()[i].len() == maior_tamanho(todas));
        }
    }

    /// A chain at hand that no other chain at hand exceeds may be played.
    pub proof fn lei_cadeia_mais_longa(self, b: Coord, longa: Seq<Jogada>)
        requires
            self.cadeia_disponivel(b, longa),
            forall|a: Coord, outra: Seq<Jogada>|
                self.cadeia_disponivel(a, outra) ==> outra.len() <= longa.len(),
        ensures
            self.todas_capturas().contains(longa),
    {
        let todas = self.cadeias_de_todas();
        self.lema_cadeias_de_todas();
        lema_mais_longas(todas);
        assert(self.disponivel(longa));
        assert(todas.contains(longa));
        let k = choose|k: int| 0 <= k < todas.len() && todas[k] == longa;
        lema_maior_tamanho(todas, k);
        lema_maior_atingido(todas);
        let m = choose|m: int|
            0 <= m < todas.len() && (#[trigger] todas[m]).len() == maior_tamanho(todas);
        assert(todas.contains(todas[m]));
        assert(self.disponivel(todas[m]));
        let a = choose|a: Coord| self.cadeia_disponivel(a, todas[m]);
        assert(todas[m].len() <= longa.len());
    }

    /// `cadeia` is a capture chain of a piece of kind `peca` that starts on
    /// `o`: each move is an immediate capture of such a piece from the square
    /// on which it then stands, each starts where the one before it ended,
    /// and no square is jumped over twice.
    #[verifier::opaque]
    pub open spec fn e_cadeia(self, o: Coord, peca: Peca, cadeia: Seq<Jogada>) -> bool {
        &&& capturas_distintas(cadeia)
        &&& encadeadas(o, cadeia)
        &&& forall|k: int|
            0 <= k < cadeia.len() ==> self.capturas_imediatas(
                (#[trigger] cadeia[k]).origem(),
                peca,
            ).contains(cadeia[k])
    }

    /// A piece of kind `peca` that played `cadeia` from `o` cannot go on:
    /// every immediate capture from where it stands goes over a square that
    /// it has jumped already.
    #[verifier::opaque]
    pub open spec fn esgotada(self, o: Coord, peca: Peca, cadeia: Seq<Jogada>) -> bool {
        forall|i: int|
            0 <= i < self.capturas_imediatas(fim_da_cadeia(o, cadeia), peca).len()
                ==> ja_capturada(
                cadeia,
                (#[trigger] self.capturas_imediatas(fim_da_cadeia(o, cadeia), peca)[i]).captura(),
            )
    }

    /// A capture chain jumps over no square twice.
    pub proof fn lema_cadeia_sem_repeticao(self, o: Coord, peca: Peca, cadeia: Seq<Jogada>)
        requires
            self.e_cadeia(o, peca, cadeia),
        ensures
            capturas_distintas(cadeia),
            encadeadas(o, cadeia),
    {
        reveal(Posicao::e_cadeia);
    }

    /// Where no chain continues `caminho` with one of the immediate captures
    /// numbered `i` or more, each of these goes over a square already jumped.
    proof fn lema_ramos_vazios(self, o: Coord, peca: Peca, caminho: Seq<Jogada>, i: nat, n: int)
        requires
            capturas_distintas(caminho),
            self.ramos(o, peca, caminho, i).len() == 0,
            i <= n < self.capturas_imediatas(o, peca).len(),
        ensures
            ja_capturada(caminho, self.capturas_imediatas(o, peca)[n].captura()),
        decreases n - i,
    {
        let j = self.capturas_imediatas(o, peca)[i as int];
        if !ja_capturada(caminho, j.captura()) {
            self.lema_capturas_imediatas(o, peca, i as int);
            lema_mais_uma_captura(caminho, j);
            assert(self.cadeias(j.destino(), peca, caminho.push(j)).len() > 0);
        }
        if i < n {
            self.lema_ramos_vazios(o, peca, caminho, (i + 1) as nat, n);
        }
    }

    /// A capture chain that ends on `o`, with one more immediate capture from
    /// `o` over a square not yet jumped, is a capture chain that ends where
    /// that capture lands.
    proof fn lema_cadeia_estendida(
        self,
        inicio: Coord,
        o: Coord,
        peca: Peca,
        caminho: Seq<Jogada>,
        i: int,
    )
        requires
            self.e_cadeia(inicio, peca, caminho),
            fim_da_cadeia(inicio, caminho) == o,
            0 <= i < self.capturas_imediatas(o, peca).len(),
            !ja_capturada(caminho, self.capturas_imediatas(o, peca)[i].captura()),
        ensures
            self.e_cadeia(inicio, peca, caminho.push(self.capturas_imediatas(o, peca)[i])),
            fim_da_cadeia(inicio, caminho.push(self.capturas_imediatas(o, peca)[i]))
                == self.capturas_imediatas(o, peca)[i].destino(),
    {
        reveal(Posicao::e_cadeia);
        let j = self.capturas_imediatas(o, peca)[i];
        let novo = caminho.push(j);
        self.lema_capturas_imediatas(o, peca, i);
        lema_mais_uma_captura(caminho, j);
        assert(self.capturas_imediatas(o, peca).contains(j));
        assert forall|m: int| 0 <= m < novo.len() implies self.capturas_imediatas(
            (#[trigger] novo[m]).origem(),
            peca,
        ).contains(novo[m]) by {
            if m < caminho.len() {
                assert(novo[m] == caminho[m]);
            }
        }
        assert forall|m: int| 0 <= m < novo.len() implies (#[trigger] novo[m]).origem() == if m
            == 0 {
            inicio
        } else {
            novo[m - 1].destino()
        } by {
            if m < caminho.len() {
                assert(novo[m] == caminho[m]);
            }
        }
    }

    /// Every chain that the search finds from a chain `caminho` that starts
    /// on `inicio` and ends on `o` is a capture chain from `inicio`, begins
    /// with `caminho`, and cannot be continued.
    pub proof fn lema_cadeias(
        self,
        inicio: Coord,
        o: Coord,
        peca: Peca,
        caminho: Seq<Jogada>,
        k: int,
    )
        requires
            self.e_cadeia(inicio, peca, caminho),
            fim_da_cadeia(inicio, caminho) == o,
            0 <= k < self.cadeias(o, peca, caminho).len(),
        ensures
            self.e_cadeia(inicio, peca, self.cadeias(o, peca, caminho)[k]),
            caminho.is_prefix_of(self.cadeias(o, peca, caminho)[k]),
            self.esgotada(inicio, peca, self.cadeias(o, peca, caminho)[k]),
        decreases 64 - caminho.len(), self.capturas_imediatas(o, peca).len() + 1,
    {
        self.lema_cadeia_sem_repeticao(inicio, peca, caminho);
        if self.ramos(o, peca, caminho, 0).len() == 0 {
            reveal(Posicao::esgotada);
            assert forall|i: int|
                0 <= i < self.capturas_imediatas(o, peca).len() implies ja_capturada(
                caminho,
                (#[trigger] self.capturas_imediatas(o, peca)[i]).captura(),
            ) by {
                self.lema_ramos_vazios(o, peca, caminho, 0, i);
            }
        } else {
            self.lema_ramos(inicio, o, peca, caminho, 0, k);
        }
    }

    /// The same of the chains that continue `caminho` with one of the
    /// immediate captures numbered `i` or more; these are longer than
    /// `caminho`.
    #[verifier::rlimit(40)]
    pub proof fn lema_ramos(
        self,
        inicio: Coord,
        o: Coord,
        peca: Peca,
        caminho: Seq<Jogada>,
        i: nat,
        k: int,
    )
        requires
            self.e_cadeia(inicio, peca, caminho),
            fim_da_cadeia(inicio, caminho) == o,
            0 <= k < self.ramos(o, peca, caminho, i).len(),
        ensures
            self.e_cadeia(inicio, peca, self.ramos(o, peca, caminho, i)[k]),
            caminho.is_prefix_of(self.ramos(o, peca, caminho, i)[k]),
            self.ramos(o, peca, caminho, i)[k].len() > caminho.len(),
            self.esgotada(inicio, peca, self.ramos(o, peca, caminho, i)[k]),
        decreases 64 - caminho.len(), self.capturas_imediatas(o, peca).len() - i,
    {
        self.lema_cadeia_sem_repeticao(inicio, peca, caminho);
        let candidatas = self.capturas_imediatas(o, peca);
        let j = candidatas[i as int];
        let deste = if ja_capturada(caminho, j.captura()) {
            Seq::<Seq<Jogada>>::empty()
        } else {
            self.cadeias(j.destino(), peca, caminho.push(j))
        };
        if k < deste.len() {
            let novo = caminho.push(j);
            self.lema_cadeia_estendida(inicio, o, peca, caminho, i as int);
            self.lema_cadeia_sem_repeticao(inicio, peca, novo);
            lema_limite_de_capturas(novo);
            self.lema_cadeias(inicio, j.destino(), peca, novo, k);
            lema_prefixo_do_prefixo(caminho, j, self.cadeias(j.destino(), peca, novo)[k]);
        } else {
            self.lema_ramos(inicio, o, peca, caminho, (i + 1) as nat, k - deste.len());
        }
    }

    /// Where every immediate capture from `o` numbered `i` or more goes over
    /// a square already jumped, no chain continues `caminho` with one of them.
    proof fn lema_sem_ramos(self, o: Coord, peca: Peca, caminho: Seq<Jogada>, i: nat)
        requires
            capturas_distintas(caminho),
            forall|n: int|
                i <= n < self.capturas_imediatas(o, peca).len() ==> ja_capturada(
                    caminho,
                    (#[trigger] self.capturas_imediatas(o, peca)[n]).captura(),
                ),
        ensures
            self.ramos(o, peca, caminho, i).len() == 0,
        decreases self.capturas_imediatas(o, peca).len() - i,
    {
        if i < self.capturas_imediatas(o, peca).len() {
            assert(ja_capturada(caminho, self.capturas_imediatas(o, peca)[i as int].captura()));
            self.lema_sem_ramos(o, peca, caminho, (i + 1) as nat);
        }
    }

    /// What the search finds behind immediate capture number `n` is among
    /// the chains that continue `caminho` with one of the captures numbered
    /// `i` or more, for `i` up to `n`.
    #[verifier::rlimit(40)]
    proof fn lema_ramo_contido(
        self,
        o: Coord,
        peca: Peca,
        caminho: Seq<Jogada>,
        i: nat,
        n: int,
        cadeia: Seq<Jogada>,
    )
        requires
            capturas_distintas(caminho),
            i <= n < self.capturas_imediatas(o, peca).len(),
            !ja_capturada(caminho, self.capturas_imediatas(o, peca)[n].captura()),
            self.cadeias(
                self.capturas_imediatas(o, peca)[n].destino(),
                peca,
                caminho.push(self.capturas_imediatas(o, peca)[n]),
            ).contains(cadeia),
        ensures
            self.ramos(o, peca, caminho, i).contains(cadeia),
        decreases n - i,
    {
        let j = self.capturas_imediatas(o, peca)[i as int];
        let deste = if ja_capturada(caminho, j.captura()) {
            Seq::<Seq<Jogada>>::empty()
        } else {
            self.cadeias(j.destino(), peca, caminho.push(j))
        };
        let resto = self.ramos(o, peca, caminho, (i + 1) as nat);
        assert(self.ramos(o, peca, caminho, i) == deste + resto);
        if i == n {
            let k = choose|k: int| 0 <= k < deste.len() && deste[k] == cadeia;
            assert((deste + resto)[k] == cadeia);
        } else {
            self.lema_ramo_contido(o, peca, caminho, (i + 1) as nat, n, cadeia);
            let k = choose|k: int| 0 <= k < resto.len() && resto[k] == cadeia;
            assert((deste + resto)[deste.len() + k] == cadeia);
        }
    }

    /// A capture chain that cannot be continued is found by the search from
    /// each of its beginnings.
    pub proof fn lema_cadeia_achada(self, inicio: Coord, peca: Peca, cadeia: Seq<Jogada>, n: int)
        requires
            self.e_cadeia(inicio, peca, cadeia),
            self.esgotada(inicio, peca, cadeia),
            0 <= n <= cadeia.len(),
        ensures
            self.cadeias(fim_da_cadeia(inicio, cadeia.take(n)), peca, cadeia.take(n)).contains(
                cadeia,
            ),
        decreases cadeia.len() - n,
    {
        reveal(Posicao::e_cadeia);
        reveal(Posicao::esgotada);
        let caminho = cadeia.take(n);
        let o = fim_da_cadeia(inicio, caminho);
        assert(capturas_distintas(caminho));
        if n == cadeia.len() {
            assert(caminho =~= cadeia);
            self.lema_sem_ramos(o, peca, caminho, 0);
            assert(self.cadeias(o, peca, caminho)[0] == cadeia);
        } else {
            let j = cadeia[n];
            let candidatas = self.capturas_imediatas(o, peca);
            assert(j.origem() == o) by {
                if n > 0 {
                    assert(caminho.last() == cadeia[n - 1]);
                }
            }
            assert(candidatas.contains(j));
            let m = choose|m: int| 0 <= m < candidatas.len() && candidatas[m] == j;
            assert(!ja_capturada(caminho, j.captura())) by {
                if ja_capturada(caminho, j.captura()) {
                    let k = choose|k: int|
                        0 <= k < caminho.len() && (#[trigger] caminho[k]).captura() == j.captura();
                    assert(cadeia[k].captura() != cadeia[n].captura());
                }
            }
            assert(caminho.push(j) =~= cadeia.take(n + 1));
            self.lema_cadeia_achada(inicio, peca, cadeia, n + 1);
            self.lema_ramo_contido(o, peca, caminho, 0, m, cadeia);
        }
    }

    /// The search misses no chain: every capture chain of a piece of kind
    /// `peca` from `o` that cannot be continued is one of the chains found.
    pub proof fn lei_cadeias_completas(self, o: Coord, peca: Peca, cadeia: Seq<Jogada>)
        requires
            self.e_cadeia(o, peca, cadeia),
            self.esgotada(o, peca, cadeia),
        ensures
            self.cadeias(o, peca, Seq::<Jogada>::empty()).contains(cadeia),
    {
        self.lema_cadeia_achada(o, peca, cadeia, 0);
        assert(cadeia.take(0) =~= Seq::<Jogada>::empty());
    }

    /// The search finds the capture chains that cannot be continued, and
    /// nothing else.
    pub proof fn lei_cadeias_exatas(self, o: Coord, peca: Peca, cadeia: Seq<Jogada>)
        ensures
            self.cadeias(o, peca, Seq::<Jogada>::empty()).contains(cadeia) <==> self.e_cadeia(
                o,
                peca,
                cadeia,
            ) && self.esgotada(o, peca, cadeia),
    {
        let vazio = Seq::<Jogada>::empty();
        let todas = self.cadeias(o, peca, vazio);
        if todas.contains(cadeia) {
            let k = choose|k: int| 0 <= k < todas.len() && todas[k] == cadeia;
            assert(self.e_cadeia(o, peca, vazio)) by {
                reveal(Posicao::e_cadeia);
            }
            self.lema_cadeias(o, o, peca, vazio, k);
        }
        if self.e_cadeia(o, peca, cadeia) && self.esgotada(o, peca, cadeia) {
            self.lei_cadeias_completas(o, peca, cadeia);
        }
    }

    /// The chains of the piece on `o` are capture chains: each is made of
    /// immediate captures of that piece on the board without the piece
    /// itself, linked from `o`, with no square jumped over twice; none of
    /// them can be continued, and all have the same number of jumps.
    pub proof fn lei_cadeias_da_peca(self, o: Coord, k: int)
        requires
            self.casa(o) is Ocupada,
            0 <= k < self.capturas_de(o).len(),
        ensures
            self.com(o, Casa::Vazia).e_cadeia(o, self.casa(o)->0, self.capturas_de(o)[k]),
            self.com(o, Casa::Vazia).esgotada(o, self.casa(o)->0, self.capturas_de(o)[k]),
            forall|m: int|
                0 <= m < self.capturas_de(o).len() ==> (#[trigger] self.capturas_de(o)[m]).len()
                    == self.capturas_de(o)[k].len(),
    {
        let sem = self.com(o, Casa::Vazia);
        let peca = self.casa(o)->0;
        let vazio = Seq::<Jogada>::empty();
        let todas = sem.cadeias(o, peca, vazio);
        assert(sem.e_cadeia(o, peca, vazio)) by {
            reveal(Posicao::e_cadeia);
        }
        lema_mais_longas(todas);
        let cadeia = self.capturas_de(o)[k];
        let n = choose|n: int| 0 <= n < todas.len() && todas[n] == cadeia;
        sem.lema_cadeias(o, o, peca, vazio, n);
    }
}

/// What begins with a chain and one move more begins with the chain, and is
/// longer than it.
proof fn lema_prefixo_do_prefixo(caminho: Seq<Jogada>, j: Jogada, cadeia: Seq<Jogada>)
    requires
        caminho.push(j).is_prefix_of(cadeia),
    ensures
        caminho.is_prefix_of(cadeia),
        cadeia.len() > caminho.len(),
{
    let novo = caminho.push(j);
    assert(cadeia.subrange(0, caminho.len() as int) =~= novo.subrange(0, caminho.len() as int));
    assert(novo.subrange(0, caminho.len() as int) =~= caminho);
}

/// The square on which a piece stands after it played `cadeia` from `o`.
pub open spec fn fim_da_cadeia(o: Coord, cadeia: Seq<Jogada>) -> Coord {
    if cadeia.len() == 0 {
        o
    } else {
        cadeia.last().destino()
    }
}

/// There is no first move from `o` to `d` just where no move leads from `o`
/// to `d`.
pub proof fn lema_sem_primeira(jogadas: Seq<Jogada>, o: Coord, d: Coord)
    ensures
        primeira_com(jogadas, o, d) is None <==> forall|k: int|
            0 <= k < jogadas.len() ==> !(#[trigger] jogadas[k]).tem(o, d),
    decreases jogadas.len(),
{
    if jogadas.len() > 0 {
        let resto = jogadas.drop_first();
        lema_sem_primeira(resto, o, d);
        if !jogadas.first().tem(o, d) {
            if primeira_com(resto, o, d) is None {
                assert forall|k: int| 0 <= k < jogadas.len() implies !(#[trigger] jogadas[k]).tem(
                    o,
                    d,
                ) by {
                    if k > 0 {
                        assert(jogadas[k] == resto[k - 1]);
                    }
                }
            } else {
                let k = choose|k: int| 0 <= k < resto.len() && (#[trigger] resto[k]).tem(o, d);
                assert(jogadas[k + 1].tem(o, d));
            }
        }
    }
}

/// The first move that leads from `o` to `d` is one of the moves and leads
/// from `o` to `d`.
pub proof fn lema_primeira_com(jogadas: Seq<Jogada>, o: Coord, d: Coord) -> (k: int)
    requires
        primeira_com(jogadas, o, d) is Some,
    ensures
        0 <= k < jogadas.len(),
        primeira_com(jogadas, o, d) == Some(jogadas[k]),
        jogadas[k].tem(o, d),
    decreases jogadas.len(),
{
    if jogadas.first().tem(o, d) {
        0
    } else {
        lema_primeira_com(jogadas.drop_first(), o, d) + 1
    }
}

} // verus!
