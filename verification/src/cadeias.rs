//! Capture chains: the jumps that one piece makes in a single turn.

use crate::coord::Coord;
use crate::jogada::{Jogada, JogadaResultado};
use crate::peca::{Casa, Peca};
use crate::regras::{direcao, ha_captura, Posicao};
use crate::seqs::{lema_filtro_contem, lema_filtro_elemento};
use vstd::prelude::*;
use vstd::set_lib::{lemma_int_range, lemma_len_subset, set_int_range};

verus! {

/// Whether one of the jumps of `caminho` went over square `c`.
pub open spec fn ja_capturada(caminho: Seq<Jogada>, c: Coord) -> bool {
    exists|k: int| 0 <= k < caminho.len() && (#[trigger] caminho[k]).captura() == c
}

/// Every move of `caminho` is a single jump over a square of the board, and
/// no square is jumped over twice.
pub open spec fn capturas_distintas(caminho: Seq<Jogada>) -> bool {
    &&& forall|k: int|
        0 <= k < caminho.len() ==> (#[trigger] caminho[k]) is Capturar
            && caminho[k].captura().valida()
    &&& forall|k: int, l: int|
        0 <= k < l < caminho.len() ==> (#[trigger] caminho[k]).captura()
            != (#[trigger] caminho[l]).captura()
}

/// The moves of `caminho` are linked: each starts where the one before it
/// ended, and the first starts on `o`.
pub open spec fn encadeadas(o: Coord, caminho: Seq<Jogada>) -> bool {
    forall|k: int|
        0 <= k < caminho.len() ==> (#[trigger] caminho[k]).origem() == if k == 0 {
            o
        } else {
            caminho[k - 1].destino()
        }
}

/// The number of a square of the board, counted row by row.
pub open spec fn numero_da_casa(c: Coord) -> int {
    c.y * 8 + c.x
}

/// A chain that jumps over no square twice has at most as many jumps as the
/// board has squares.
pub proof fn lema_limite_de_capturas(caminho: Seq<Jogada>)
    requires
        capturas_distintas(caminho),
    ensures
        caminho.len() <= 64,
{
    let numeros = caminho.map_values(|j: Jogada| numero_da_casa(j.captura()));
    assert forall|k: int, l: int|
        0 <= k < numeros.len() && 0 <= l < numeros.len() && k != l implies numeros[k]
        != numeros[l] by {
        let a = caminho[k].captura();
        let b = caminho[l].captura();
        if k < l {
            assert(a != b);
        } else {
            assert(b != a);
        }
        assert(a.valida() && b.valida());
    }
    assert(numeros.no_duplicates());
    numeros.unique_seq_to_set();
    lemma_int_range(0, 64);
    assert forall|n: int| numeros.to_set().contains(n) implies set_int_range(0, 64).contains(
        n,
    ) by {
        let k = choose|k: int| 0 <= k < numeros.len() && numeros[k] == n;
        assert(caminho[k].captura().valida());
    }
    lemma_len_subset(numeros.to_set(), set_int_range(0, 64));
}

impl Posicao {
    /// Every square of a walk is free.
    pub proof fn lema_trilho(self, c: Coord, d: Coord, k: int)
        requires
            0 <= k < self.trilho(c, d).len(),
        ensures
            self.livre(self.trilho(c, d)[k]),
        decreases k,
    {
        if k > 0 {
            self.lema_trilho(c.soma(d), d, k - 1);
        }
    }

    /// Every jump of a king in one direction starts on `o`, goes over a
    /// piece of the other side and lands on a free square.
    pub proof fn lema_capturas_na_direcao(self, o: Coord, d: Coord, k: int)
        requires
            0 <= k < self.capturas_na_direcao(o, d).len(),
        ensures
            self.salto_legal(o, self.capturas_na_direcao(o, d)[k]),
    {
        self.lema_trilho(self.obstaculo(o, d).soma(d), d, k);
    }

    /// `j` is a single jump from `o` over a piece of the other side onto a
    /// free square.
    pub open spec fn salto_legal(self, o: Coord, j: Jogada) -> bool {
        j matches Jogada::Capturar(a, b, d) && a == o && self.inimiga(b) && self.livre(d)
    }

    /// Every immediate capture from `o` is a single jump from `o` over a
    /// piece of the other side onto a free square.
    pub proof fn lema_capturas_imediatas(self, o: Coord, peca: Peca, i: int)
        requires
            0 <= i < self.capturas_imediatas(o, peca).len(),
        ensures
            self.salto_legal(o, self.capturas_imediatas(o, peca)[i]),
    {
        if peca.coroada() {
            let c0 = self.capturas_na_direcao(o, direcao(0));
            let c1 = self.capturas_na_direcao(o, direcao(1));
            let c2 = self.capturas_na_direcao(o, direcao(2));
            let c3 = self.capturas_na_direcao(o, direcao(3));
            if i < c0.len() {
                self.lema_capturas_na_direcao(o, direcao(0), i);
            } else if i < c0.len() + c1.len() {
                self.lema_capturas_na_direcao(o, direcao(1), i - c0.len());
            } else if i < c0.len() + c1.len() + c2.len() {
                self.lema_capturas_na_direcao(
                    o,
                    direcao(2),
                    i - c0.len() - c1.len(),
                );
            } else {
                self.lema_capturas_na_direcao(
                    o,
                    direcao(3),
                    i - c0.len() - c1.len() - c2.len(),
                );
            }
        } else {
            lema_filtro_elemento(o.vizinhas(), self.comivel(o), i);
        }
    }

    /// The chains that continue `caminho` with jumps of a piece of kind
    /// `peca` that stands on `o`, found by trying the immediate captures in
    /// their order. A chain ends where no immediate capture is left that
    /// goes over a square not yet jumped; `caminho` itself is the one chain
    /// where there is none at once.
    pub open spec fn cadeias(self, o: Coord, peca: Peca, caminho: Seq<Jogada>) -> Seq<Seq<Jogada>>
        decreases 64 - caminho.len(), self.capturas_imediatas(o, peca).len() + 1,
        when capturas_distintas(caminho)
    {
        let ramos = self.ramos(o, peca, caminho, 0);
        if ramos.len() == 0 {
            seq![caminho]
        } else {
            ramos
        }
    }

    /// The chains that continue `caminho` with one of the immediate captures
    /// from `o` numbered `i` or more.
    pub open spec fn ramos(self, o: Coord, peca: Peca, caminho: Seq<Jogada>, i: nat) -> Seq<
        Seq<Jogada>,
    >
        decreases 64 - caminho.len(), self.capturas_imediatas(o, peca).len() - i,
        when capturas_distintas(caminho)
    {
        let candidatas = self.capturas_imediatas(o, peca);
        if i >= candidatas.len() {
            seq![]
        } else {
            let j = candidatas[i as int];
            let deste = if ja_capturada(caminho, j.captura()) {
                seq![]
            } else {
                proof {
                    self.lema_capturas_imediatas(o, peca, i as int);
                    lema_mais_uma_captura(caminho, j);
                    lema_limite_de_capturas(caminho.push(j));
                }
                self.cadeias(j.destino(), peca, caminho.push(j))
            };
            deste + self.ramos(o, peca, caminho, (i + 1) as nat)
        }
    }
}

/// A chain stays free of repeated captures when a jump over a new square of
/// the board is added to it.
pub proof fn lema_mais_uma_captura(caminho: Seq<Jogada>, j: Jogada)
    requires
        capturas_distintas(caminho),
        j is Capturar,
        j.captura().valida(),
        !ja_capturada(caminho, j.captura()),
    ensures
        capturas_distintas(caminho.push(j)),
{
    let novo = caminho.push(j);
    assert forall|k: int, l: int| 0 <= k < l < novo.len() implies (#[trigger] novo[k]).captura()
        != (#[trigger] novo[l]).captura() by {
        if l == caminho.len() {
            assert(caminho[k].captura() != j.captura());
        }
    }
}

/// The length of the longest of the chains; 0 where there is none.
pub open spec fn maior_tamanho(cadeias: Seq<Seq<Jogada>>) -> nat
    decreases cadeias.len(),
{
    if cadeias.len() == 0 {
        0
    } else if cadeias.last().len() > maior_tamanho(cadeias.drop_last()) {
        cadeias.last().len()
    } else {
        maior_tamanho(cadeias.drop_last())
    }
}

/// The test "has `n` moves" as a function of the chain.
pub open spec fn tem_tamanho(n: nat) -> spec_fn(Seq<Jogada>) -> bool {
    |cadeia: Seq<Jogada>| cadeia.len() == n
}

/// The first move of a chain, as a function of the chain.
pub open spec fn primeiro_lance() -> spec_fn(Seq<Jogada>) -> Jogada {
    |cadeia: Seq<Jogada>| cadeia.first()
}

/// The first of the moves that leads from `o` to `d`.
pub open spec fn primeira_com(jogadas: Seq<Jogada>, o: Coord, d: Coord) -> Option<Jogada>
    decreases jogadas.len(),
{
    if jogadas.len() == 0 {
        None
    } else if jogadas.first().tem(o, d) {
        Some(jogadas.first())
    } else {
        primeira_com(jogadas.drop_first(), o, d)
    }
}

/// The test "has a move" as a function of the chain.
pub open spec fn nao_vazia() -> spec_fn(Seq<Jogada>) -> bool {
    |cadeia: Seq<Jogada>| cadeia.len() > 0
}

/// The chains that are as long as the longest of them, in their order.
pub open spec fn mais_longas(cadeias: Seq<Seq<Jogada>>) -> Seq<Seq<Jogada>> {
    cadeias.filter(tem_tamanho(maior_tamanho(cadeias)))
}

/// No chain is longer than the longest.
pub proof fn lema_maior_tamanho(cadeias: Seq<Seq<Jogada>>, k: int)
    requires
        0 <= k < cadeias.len(),
    ensures
        cadeias[k].len() <= maior_tamanho(cadeias),
    decreases cadeias.len(),
{
    if k < cadeias.len() - 1 {
        lema_maior_tamanho(cadeias.drop_last(), k);
    }
}

/// Where there is a chain, one of them is as long as the longest.
pub proof fn lema_maior_atingido(cadeias: Seq<Seq<Jogada>>)
    requires
        cadeias.len() > 0,
    ensures
        exists|k: int| 0 <= k < cadeias.len() && (#[trigger] cadeias[k]).len() == maior_tamanho(cadeias),
    decreases cadeias.len(),
{
    let n = cadeias.len() - 1;
    if n == 0 || cadeias.last().len() > maior_tamanho(cadeias.drop_last()) {
        assert(cadeias[n].len() == maior_tamanho(cadeias));
    } else {
        lema_maior_atingido(cadeias.drop_last());
        let k = choose|k: int|
            0 <= k < n && (#[trigger] cadeias.drop_last()[k]).len() == maior_tamanho(
                cadeias.drop_last(),
            );
        assert(cadeias[k].len() == maior_tamanho(cadeias));
    }
}

/// The longest chains are chains of the sequence, each as long as the
/// longest, and every chain of that length is one of them.
pub proof fn lema_mais_longas(cadeias: Seq<Seq<Jogada>>)
    ensures
        forall|k: int|
            0 <= k < mais_longas(cadeias).len() ==> (#[trigger] mais_longas(cadeias)[k]).len()
                == maior_tamanho(cadeias) && cadeias.contains(mais_longas(cadeias)[k]),
        forall|cadeia: Seq<Jogada>|
            cadeias.contains(cadeia) && cadeia.len() == maior_tamanho(cadeias) ==> mais_longas(
                cadeias,
            ).contains(cadeia),
        cadeias.len() > 0 ==> mais_longas(cadeias).len() > 0,
{
    let teste = tem_tamanho(maior_tamanho(cadeias));
    assert forall|k: int| 0 <= k < mais_longas(cadeias).len() implies (#[trigger] mais_longas(
        cadeias,
    )[k]).len() == maior_tamanho(cadeias) && cadeias.contains(mais_longas(cadeias)[k]) by {
        lema_filtro_elemento(cadeias, teste, k);
    }
    assert forall|cadeia: Seq<Jogada>|
        cadeias.contains(cadeia) && cadeia.len() == maior_tamanho(cadeias) implies mais_longas(
        cadeias,
    ).contains(cadeia) by {
        lema_filtro_contem(cadeias, teste, cadeia);
    }
    if cadeias.len() > 0 {
        lema_maior_atingido(cadeias);
        let k = choose|k: int|
            0 <= k < cadeias.len() && (#[trigger] cadeias[k]).len() == maior_tamanho(cadeias);
        assert(cadeias.contains(cadeias[k]));
        assert(mais_longas(cadeias).contains(cadeias[k]));
    }
}

impl Posicao {
    /// The longest capture chains of the piece on `o`, found on the board
    /// without that piece. The one empty chain where the piece cannot
    /// capture or `o` is empty.
    pub open spec fn capturas_de(self, o: Coord) -> Seq<Seq<Jogada>> {
        match self.casa(o) {
            Casa::Vazia => seq![Seq::<Jogada>::empty()],
            Casa::Ocupada(p) => mais_longas(
                self.com(o, Casa::Vazia).cadeias(o, p, Seq::<Jogada>::empty()),
            ),
        }
    }

    /// `capturas_de` as a function of the square.
    pub open spec fn capturas_por_casa(self) -> spec_fn(Coord) -> Seq<Seq<Jogada>> {
        |c: Coord| self.capturas_de(c)
    }

    /// `movimentos` as a function of the square.
    pub open spec fn movimentos_por_casa(self) -> spec_fn(Coord) -> Seq<Jogada> {
        |c: Coord| self.movimentos(c)
    }

    /// The capture chains that the side to move may play: of the chains of
    /// all its pieces, taken piece by piece, the longest.
    pub open spec fn todas_capturas(self) -> Seq<Seq<Jogada>> {
        mais_longas(
            self.pecas_da_vez().map_values(self.capturas_por_casa()).flatten().filter(nao_vazia()),
        )
    }

    /// The steps of each piece of the side to move that has any, piece by
    /// piece.
    pub open spec fn todos_movimentos(self) -> Seq<Seq<Jogada>> {
        self.pecas_da_vez().map_values(self.movimentos_por_casa()).filter(nao_vazia())
    }

    /// The moves that may be submitted: the first jump of each capture chain
    /// that the side may play or, where it has none, the steps of its
    /// pieces.
    pub open spec fn legais(self) -> Seq<Jogada> {
        if self.todas_capturas().len() > 0 {
            self.todas_capturas().map_values(primeiro_lance())
        } else {
            self.todos_movimentos().flatten()
        }
    }

    /// The outcome of submitting the move from `o` to `d`, and the position
    /// after it.
    ///
    /// The move is looked up in `legais`: where the side can capture, it
    /// must be the first jump of one of its longest chains, else a step of
    /// one of its pieces. Without such a move the submission fails and
    /// nothing changes. The piece goes to `d`, a captured piece leaves the
    /// board, and a man that reached its last row is crowned. After a
    /// capture that left the other side without pieces the game is over,
    /// won by the side that moved; after a capture from whose landing square
    /// the piece can capture again the same side stays to move; in every
    /// other case the turn passes.
    pub open spec fn jogar(self, o: Coord, d: Coord) -> (JogadaResultado, Posicao) {
        match primeira_com(self.legais(), o, d) {
            None => (JogadaResultado::Falha, self),
            Some(j) => {
                let movida = self.mover_sem_checar(o, d);
                let tomada = if j.e_capturar() {
                    movida.com(j.captura(), Casa::Vazia)
                } else {
                    movida
                };
                let depois = tomada.promover(d);
                if j.e_capturar() && depois.sem_adversarios() {
                    (JogadaResultado::FimDoJogo(self.vez), depois)
                } else if j.e_capturar() && ha_captura(depois.possiveis(d)) {
                    (JogadaResultado::Sequencia, depois)
                } else {
                    (JogadaResultado::Sucesso, depois.passar_turno())
                }
            },
        }
    }

    /// What the side to move may play: its longest capture chains, or the
    /// steps of its pieces where it has no capture.
    pub open spec fn todas_jogadas(self) -> Seq<Seq<Jogada>> {
        if self.todas_capturas().len() == 0 {
            self.todos_movimentos()
        } else {
            self.todas_capturas()
        }
    }
}

} // verus!
