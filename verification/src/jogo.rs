//! The game session: the board, the side to move, and the rules at work.

use crate::cadeias::{
    capturas_distintas, ja_capturada, lema_limite_de_capturas, lema_mais_uma_captura,
    maior_tamanho, mais_longas, nao_vazia, primeira_com, primeiro_lance, tem_tamanho,
};
use crate::coord::{c, Coord};
use crate::jogada::{copiar_cadeia, Jogada, JogadaResultado};
use crate::peca::{casa_do_caractere, Casa, Jogador, Peca};
use crate::regras::{
    casa_numero, e_captura, ha_captura, layout_valido, passo_de, posicao_do_layout, salto_de,
    salto_sobre, todas_as_casas, Posicao,
};
use crate::seqs::{
    lema_achatar_passo, lema_filtro_elemento, lema_filtro_passo, lema_filtro_vazio,
};
use vstd::prelude::*;

verus! {

/// The opening layout: twelve men a side on the dark squares of the three
/// rows nearest to each player, black on rows 0 to 2 and white on rows 5 to 7.
pub const TABULEIRO_INICIAL: [[char; 8]; 8] = [
    ['p', '.', 'p', '.', 'p', '.', 'p', '.'],
    ['.', 'p', '.', 'p', '.', 'p', '.', 'p'],
    ['p', '.', 'p', '.', 'p', '.', 'p', '.'],
    ['.', '.', '.', '.', '.', '.', '.', '.'],
    ['.', '.', '.', '.', '.', '.', '.', '.'],
    ['b', '.', 'b', '.', 'b', '.', 'b', '.'],
    ['.', 'b', '.', 'b', '.', 'b', '.', 'b'],
    ['b', '.', 'b', '.', 'b', '.', 'b', '.'],
];

/// A game in progress.
#[derive(Debug, Clone)]
pub struct Jogo {
    tabuleiro: [[Casa; 8]; 8],
    pub vez: Jogador,
}

impl View for Jogo {
    type V = Posicao;

    closed spec fn view(&self) -> Posicao {
        Posicao {
            casas: Map::new(
                |c: Coord| c.valida(),
                |c: Coord| self.tabuleiro[c.y as int][c.x as int],
            ),
            vez: self.vez,
        }
    }
}

impl Jogo {
    /// The view of a game is a well-formed position.
    pub proof fn lema_vista(&self)
        ensures
            self@.bem_formada(),
    {
    }

    /// Whether every character of the layout stands for a square, that is,
    /// whether `new` takes the layout.
    pub fn layout_aceito(tabuleiro: &[[char; 8]; 8]) -> (b: bool)
        ensures
            b == layout_valido(*tabuleiro),
    {
        let mut n: usize = 0;
        while n < 64
            invariant
                n <= 64,
                forall|y: int, x: int|
                    0 <= y < 8 && 0 <= x < 8 && y * 8 + x < n ==> casa_do_caractere(
                        #[trigger] tabuleiro[y][x],
                    ) is Some,
            decreases 64 - n,
        {
            if Casa::do_caractere(tabuleiro[n / 8][n % 8]).is_none() {
                return false;
            }
            n += 1;
        }
        true
    }

    /// A game on the given layout, white to move.
    pub fn new(tabuleiro: [[char; 8]; 8]) -> (r: Jogo)
        requires
            layout_valido(tabuleiro),
        ensures
            r@ == posicao_do_layout(tabuleiro),
    {
        let mut tab = [[Casa::Vazia; 8]; 8];
        let mut y: usize = 0;
        while y < 8
            invariant
                y <= 8,
                layout_valido(tabuleiro),
                forall|j: int, i: int|
                    0 <= j < y && 0 <= i < 8 ==> casa_do_caractere(tabuleiro[j][i]) == Some(
                        #[trigger] tab[j][i],
                    ),
            decreases 8 - y,
        {
            let mut x: usize = 0;
            while x < 8
                invariant
                    y < 8,
                    x <= 8,
                    layout_valido(tabuleiro),
                    forall|j: int, i: int|
                        0 <= j < y && 0 <= i < 8 ==> casa_do_caractere(tabuleiro[j][i]) == Some(
                            #[trigger] tab[j][i],
                        ),
                    forall|i: int|
                        0 <= i < x ==> casa_do_caractere(tabuleiro[y as int][i]) == Some(
                            #[trigger] tab[y as int][i],
                        ),
                decreases 8 - x,
            {
                assert(casa_do_caractere(tabuleiro[y as int][x as int]) is Some);
                if let Some(casa) = Casa::do_caractere(tabuleiro[y][x]) {
                    tab[y][x] = casa;
                }
                x += 1;
            }
            y += 1;
        }
        let r = Jogo { tabuleiro: tab, vez: Jogador::Branco };
        assert(r@.casas =~= posicao_do_layout(tabuleiro).casas);
        r
    }

    /// The side to move.
    pub fn jogador_da_vez(&self) -> (r: Jogador)
        ensures
            r == self@.vez,
    {
        self.vez
    }

    /// What stands on a square.
    pub fn casa(&self, coord: Coord) -> (r: Casa)
        requires
            coord.valida(),
        ensures
            r == self@.casa(coord),
    {
        self.tabuleiro[coord.y as usize][coord.x as usize]
    }

    /// The piece on a square, if any.
    pub fn peca(&self, coord: Coord) -> (r: Option<Peca>)
        requires
            coord.valida(),
        ensures
            r == self@.casa(coord).conteudo(),
    {
        self.casa(coord).peca()
    }

    /// The square itself, to be written to.
    pub fn casa_mut(&mut self, coord: Coord) -> (r: &mut Casa)
        requires
            coord.valida(),
        ensures
            *r == old(self)@.casa(coord),
            final(self)@.vez == old(self)@.vez,
            final(self)@.casas =~= old(self)@.casas.insert(coord, *final(r)),
    {
        &mut self.tabuleiro[coord.y as usize][coord.x as usize]
    }

    /// Puts `casa` on a square.
    pub fn definir_casa(&mut self, coord: Coord, casa: Casa)
        requires
            coord.valida(),
        ensures
            final(self)@ == old(self)@.com(coord, casa),
    {
        *self.casa_mut(coord) = casa;
    }

    /// Whether the side to move owns the piece.
    pub fn e_a_vez_de(&self, peca: Peca) -> (b: bool)
        ensures
            b == self@.e_a_vez_de(peca),
    {
        if peca.e_branca() && self.vez == Jogador::Preto {
            return false;
        }
        if peca.e_preta() && self.vez == Jogador::Branco {
            return false;
        }
        true
    }

    /// Hands the move to the other side.
    pub fn passar_turno(&mut self)
        ensures
            final(self)@ == old(self)@.passar_turno(),
    {
        self.vez = match self.vez {
            Jogador::Branco => Jogador::Preto,
            Jogador::Preto => Jogador::Branco,
        };
        assert(self@.casas =~= old(self)@.casas);
    }

    /// Whether a value is a square of the board with nothing on it.
    fn e_livre(&self, coord: Coord) -> (b: bool)
        ensures
            b == self@.livre(coord),
    {
        coord.e_valida() && self.casa(coord).e_vazia()
    }

    /// Whether a value is a square of the board with a piece of the side
    /// that is not to move.
    fn e_inimiga(&self, coord: Coord) -> (b: bool)
        ensures
            b == self@.inimiga(coord),
    {
        if !coord.e_valida() {
            return false;
        }
        match self.casa(coord) {
            Casa::Ocupada(p) => !self.e_a_vez_de(p),
            Casa::Vazia => false,
        }
    }

    /// Walks from `inicio` in steps of `dir` over free squares. Gives the
    /// squares walked over and the value at which the walk stopped.
    fn andar(&self, inicio: Coord, dir: Coord) -> (r: (Vec<Coord>, Coord))
        requires
            dir.diagonal(),
        ensures
            r.0@ == self@.trilho(inicio, dir),
            r.1 == self@.barreira(inicio, dir),
    {
        let mut livres: Vec<Coord> = Vec::new();
        let mut atual = inicio;
        while self.e_livre(atual)
            invariant
                dir.diagonal(),
                livres@ + self@.trilho(atual, dir) == self@.trilho(inicio, dir),
                self@.barreira(atual, dir) == self@.barreira(inicio, dir),
            decreases
                (if dir.x == 1 {
                    8 - atual.x
                } else {
                    atual.x + 1
                }),
        {
            proof {
                assert(livres@.push(atual) + self@.trilho(atual.soma(dir), dir) =~= livres@
                    + self@.trilho(atual, dir));
            }
            livres.push(atual);
            atual = atual.mais(dir);
        }
        (livres, atual)
    }

    /// One step from `origem` to each of `destinos`.
    fn passos_para(origem: Coord, destinos: &Vec<Coord>) -> (r: Vec<Jogada>)
        ensures
            r.deep_view() == destinos@.map_values(passo_de(origem)),
    {
        let mut jogadas: Vec<Jogada> = Vec::new();
        let mut i: usize = 0;
        while i < destinos.len()
            invariant
                i <= destinos.len(),
                jogadas.len() == i,
                forall|k: int| 0 <= k < i ==> jogadas@[k]@ == Jogada::Mover(origem, destinos@[k]),
            decreases destinos.len() - i,
        {
            jogadas.push(Jogada::Mover(origem, destinos[i]));
            i += 1;
        }
        assert(jogadas.deep_view() =~= destinos@.map_values(passo_de(origem)));
        jogadas
    }

    /// One jump from `origem` over `comida` to each of `destinos`.
    fn saltos_para(origem: Coord, comida: Coord, destinos: &Vec<Coord>) -> (r: Vec<Jogada>)
        ensures
            r.deep_view() == destinos@.map_values(salto_de(origem, comida)),
    {
        let mut jogadas: Vec<Jogada> = Vec::new();
        let mut i: usize = 0;
        while i < destinos.len()
            invariant
                i <= destinos.len(),
                jogadas.len() == i,
                forall|k: int|
                    0 <= k < i ==> jogadas@[k]@ == Jogada::Capturar(origem, comida, destinos@[k]),
            decreases destinos.len() - i,
        {
            jogadas.push(Jogada::Capturar(origem, comida, destinos[i]));
            i += 1;
        }
        assert(jogadas.deep_view() =~= destinos@.map_values(salto_de(origem, comida)));
        jogadas
    }

    /// The steps of a king from `origem` in one direction.
    fn movimentos_na_direcao(&self, origem: Coord, dir: Coord) -> (r: Vec<Jogada>)
        requires
            origem.valida(),
            dir.diagonal(),
        ensures
            r.deep_view() == self@.movimentos_na_direcao(origem, dir),
    {
        let (livres, _) = self.andar(origem.mais(dir), dir);
        Self::passos_para(origem, &livres)
    }

    /// The steps that a king on `origem` can take: along each diagonal, to
    /// every free square before the first piece or the edge.
    pub fn movimentos_dama(&self, origem: Coord) -> (r: Vec<Jogada>)
        requires
            origem.valida(),
        ensures
            r.deep_view() == self@.movimentos_dama(origem),
    {
        let mut movimentos = self.movimentos_na_direcao(origem, c(1, 1));
        let ghost m0 = movimentos.deep_view();
        let mut outros = self.movimentos_na_direcao(origem, c(-1, -1));
        let ghost m1 = outros.deep_view();
        movimentos.append(&mut outros);
        let mut outros = self.movimentos_na_direcao(origem, c(1, -1));
        let ghost m2 = outros.deep_view();
        movimentos.append(&mut outros);
        let mut outros = self.movimentos_na_direcao(origem, c(-1, 1));
        let ghost m3 = outros.deep_view();
        movimentos.append(&mut outros);
        assert(movimentos.deep_view() =~= m0 + m1 + m2 + m3);
        movimentos
    }

    /// The piece that a king on `origem` would jump in one direction, and
    /// the squares on which it may land.
    fn alvo_na_direcao(&self, origem: Coord, dir: Coord) -> (r: (Coord, Vec<Coord>))
        requires
            origem.valida(),
            dir.diagonal(),
        ensures
            r.0 == self@.obstaculo(origem, dir),
            r.1@ == self@.pousos(origem, dir),
    {
        let (_, obstaculo) = self.andar(origem.mais(dir), dir);
        if self.e_inimiga(obstaculo) {
            let (pousos, _) = self.andar(obstaculo.mais(dir), dir);
            (obstaculo, pousos)
        } else {
            (obstaculo, Vec::new())
        }
    }

    /// The jumps of a king from `origem` in one direction.
    fn capturas_na_direcao(&self, origem: Coord, dir: Coord) -> (r: Vec<Jogada>)
        requires
            origem.valida(),
            dir.diagonal(),
        ensures
            r.deep_view() == self@.capturas_na_direcao(origem, dir),
    {
        let (comida, pousos) = self.alvo_na_direcao(origem, dir);
        Self::saltos_para(origem, comida, &pousos)
    }

    /// The single jumps open to a king on `origem`: over the first piece on
    /// a diagonal, if it is of the other side, to each free square behind it.
    pub fn capturas_imediatas_dama(&self, origem: Coord) -> (r: Vec<Jogada>)
        requires
            origem.valida(),
        ensures
            r.deep_view() == self@.capturas_dama(origem),
    {
        let mut capturas = self.capturas_na_direcao(origem, c(1, 1));
        let ghost m0 = capturas.deep_view();
        let mut outras = self.capturas_na_direcao(origem, c(-1, -1));
        let ghost m1 = outras.deep_view();
        capturas.append(&mut outras);
        let mut outras = self.capturas_na_direcao(origem, c(1, -1));
        let ghost m2 = outras.deep_view();
        capturas.append(&mut outras);
        let mut outras = self.capturas_na_direcao(origem, c(-1, 1));
        let ghost m3 = outras.deep_view();
        capturas.append(&mut outras);
        assert(capturas.deep_view() =~= m0 + m1 + m2 + m3);
        capturas
    }

    /// The free ones among `casas`, in their order.
    fn filtrar_livres(&self, casas: &Vec<Coord>) -> (r: Vec<Coord>)
        ensures
            r@ == casas@.filter(self@.e_livre()),
    {
        let mut livres: Vec<Coord> = Vec::new();
        let mut i: usize = 0;
        proof {
            lema_filtro_vazio(self@.e_livre());
            assert(casas@.take(0) =~= Seq::empty());
        }
        while i < casas.len()
            invariant
                i <= casas.len(),
                livres@ == casas@.take(i as int).filter(self@.e_livre()),
            decreases casas.len() - i,
        {
            proof {
                lema_filtro_passo(casas@, self@.e_livre(), i as int);
            }
            if self.e_livre(casas[i]) {
                livres.push(casas[i]);
            }
            i += 1;
        }
        assert(casas@.take(casas.len() as int) =~= casas@);
        livres
    }

    /// The steps of the man on `origem`; none if no man stands there.
    fn passos_do_peao(&self, origem: Coord) -> (r: Vec<Jogada>)
        requires
            origem.valida(),
        ensures
            r.deep_view() == self@.movimentos_peao(origem),
    {
        let adiante: Vec<Coord> = match self.casa(origem) {
            Casa::Ocupada(Peca::Branca) => origem.diagonais_da_frente(),
            Casa::Ocupada(Peca::Preta) => origem.diagonais_de_tras(),
            _ => Vec::new(),
        };
        let livres = self.filtrar_livres(&adiante);
        Self::passos_para(origem, &livres)
    }

    /// The steps that the man on `origem` can take: to the free squares one
    /// row ahead of it.
    pub fn movimentos_peao(&self, origem: Coord) -> (r: Vec<Jogada>)
        requires
            origem.valida(),
            self@.casa(origem) == Casa::Ocupada(Peca::Branca) || self@.casa(origem)
                == Casa::Ocupada(Peca::Preta),
        ensures
            r.deep_view() == self@.movimentos_peao(origem),
    {
        self.passos_do_peao(origem)
    }

    /// The steps that the piece on `origem` can take.
    pub fn calcular_movimentos(&self, origem: Coord) -> (r: Vec<Jogada>)
        requires
            origem.valida(),
            self@.casa(origem) is Ocupada,
        ensures
            r.deep_view() == self@.movimentos(origem),
    {
        match self.casa(origem) {
            Casa::Ocupada(Peca::Branca) | Casa::Ocupada(Peca::Preta) => self.movimentos_peao(
                origem,
            ),
            _ => self.movimentos_dama(origem),
        }
    }

    /// The single jumps open to a man on `origem`: over each diagonal
    /// neighbour that is a piece of the other side with a free square
    /// behind it.
    pub fn capturas_imediatas_peao(&self, origem: Coord) -> (r: Vec<Jogada>)
        requires
            origem.valida(),
        ensures
            r.deep_view() == self@.capturas_peao(origem),
    {
        let vizinhos = origem.diagonais_comiveis();
        let mut capturas: Vec<Jogada> = Vec::new();
        let ghost comivel = self@.comivel(origem);
        let mut i: usize = 0;
        proof {
            lema_filtro_vazio(comivel);
            assert(vizinhos@.take(0) =~= Seq::empty());
        }
        while i < vizinhos.len()
            invariant
                i <= vizinhos.len(),
                origem.valida(),
                vizinhos@ == origem.vizinhas(),
                comivel == self@.comivel(origem),
                capturas.deep_view() == vizinhos@.take(i as int).filter(comivel).map_values(
                    salto_sobre(origem),
                ),
            decreases vizinhos.len() - i,
        {
            let vizinho = vizinhos[i];
            proof {
                lema_filtro_passo(vizinhos@, comivel, i as int);
                origem.lema_vizinhas(i as int);
            }
            let ghost antes = capturas.deep_view();
            if self.e_inimiga(vizinho) {
                let destino = vizinho.mais(origem.distancia(vizinho));
                if self.e_livre(destino) {
                    capturas.push(Jogada::Capturar(origem, vizinho, destino));
                    assert(capturas.deep_view() =~= antes.push(
                        Jogada::Capturar(origem, vizinho, destino),
                    ));
                    assert(vizinhos@.take(i + 1).filter(comivel).map_values(salto_sobre(origem))
                        =~= antes.push(Jogada::Capturar(origem, vizinho, destino)));
                }
            }
            i += 1;
        }
        assert(vizinhos@.take(vizinhos.len() as int) =~= vizinhos@);
        capturas
    }

    /// The single jumps of a piece of kind `peca` from `origem`.
    pub fn capturas_imediatas(&self, origem: Coord, peca: Peca) -> (r: Vec<Jogada>)
        requires
            origem.valida(),
        ensures
            r.deep_view() == self@.capturas_imediatas(origem, peca),
    {
        match peca {
            Peca::Branca | Peca::Preta => self.capturas_imediatas_peao(origem),
            Peca::DamaBranca | Peca::DamaPreta => self.capturas_imediatas_dama(origem),
        }
    }

    /// What the king on `origem` may play.
    fn possiveis_jogadas_rainha(&self, origem: Coord) -> (r: Vec<Jogada>)
        requires
            origem.valida(),
        ensures
            r.deep_view() == self@.possiveis_dama(origem),
    {
        let comidas = self.capturas_imediatas_dama(origem);
        if comidas.len() == 0 {
            self.movimentos_dama(origem)
        } else {
            comidas
        }
    }

    /// What the man on `origem` may play.
    fn possiveis_jogadas_peao(&self, origem: Coord) -> (r: Vec<Jogada>)
        requires
            origem.valida(),
        ensures
            r.deep_view() == self@.possiveis_peao(origem),
    {
        let comiveis = self.capturas_imediatas_peao(origem);
        if comiveis.len() == 0 {
            self.passos_do_peao(origem)
        } else {
            comiveis
        }
    }

    /// The single moves at hand from a square: the jumps of the piece on
    /// it, one for each landing square, if it has any, else its steps.
    /// Nothing from an empty square, nor with a piece of the side that is
    /// not to move.
    pub fn possiveis_jogadas(&self, coord: Coord) -> (r: Vec<Jogada>)
        requires
            coord.valida(),
        ensures
            r.deep_view() == self@.possiveis(coord),
    {
        match self.casa(coord) {
            Casa::Vazia => {
                let nada: Vec<Jogada> = Vec::new();
                assert(nada.deep_view() =~= Seq::<Jogada>::empty());
                nada
            },
            Casa::Ocupada(peca) => {
                if !self.e_a_vez_de(peca) {
                    let nada: Vec<Jogada> = Vec::new();
                    assert(nada.deep_view() =~= Seq::<Jogada>::empty());
                    nada
                } else {
                    match peca {
                        Peca::Branca | Peca::Preta => self.possiveis_jogadas_peao(coord),
                        Peca::DamaBranca | Peca::DamaPreta => self.possiveis_jogadas_rainha(
                            coord,
                        ),
                    }
                }
            },
        }
    }

    /// The squares of the pieces of the side to move, row by row.
    pub fn pecas_da_cor_atual(&self) -> (r: Vec<Coord>)
        ensures
            r@ == self@.pecas_da_vez(),
    {
        let mut pecas: Vec<Coord> = Vec::new();
        let mut n: usize = 0;
        proof {
            lema_filtro_vazio(self@.e_propria());
            assert(todas_as_casas().take(0) =~= Seq::empty());
        }
        while n < 64
            invariant
                n <= 64,
                pecas@ == todas_as_casas().take(n as int).filter(self@.e_propria()),
            decreases 64 - n,
        {
            proof {
                lema_filtro_passo(todas_as_casas(), self@.e_propria(), n as int);
            }
            let coord = c((n % 8) as i32, (n / 8) as i32);
            if let Casa::Ocupada(peca) = self.casa(coord) {
                if self.e_a_vez_de(peca) {
                    pecas.push(coord);
                }
            }
            n += 1;
        }
        assert(todas_as_casas().take(64) =~= todas_as_casas());
        pecas
    }

    /// The squares of the board that hold exactly `casa`, row by row.
    fn procurar(&self, casa: Casa) -> (r: Vec<Coord>)
        ensures
            r@ == self@.casas_com(casa),
    {
        let mut achadas: Vec<Coord> = Vec::new();
        let mut n: usize = 0;
        proof {
            lema_filtro_vazio(self@.e_igual_a(casa));
            assert(todas_as_casas().take(0) =~= Seq::empty());
        }
        while n < 64
            invariant
                n <= 64,
                achadas@ == todas_as_casas().take(n as int).filter(self@.e_igual_a(casa)),
            decreases 64 - n,
        {
            proof {
                lema_filtro_passo(todas_as_casas(), self@.e_igual_a(casa), n as int);
            }
            let coord = c((n % 8) as i32, (n / 8) as i32);
            if self.casa(coord) == casa {
                achadas.push(coord);
            }
            n += 1;
        }
        assert(todas_as_casas().take(64) =~= todas_as_casas());
        achadas
    }

    /// The squares on which the white men stand, row by row.
    pub fn pecas_brancas(&self) -> (r: Vec<Coord>)
        ensures
            r@ == self@.casas_com(Casa::Ocupada(Peca::Branca)),
    {
        self.procurar(Casa::Ocupada(Peca::Branca))
    }

    /// The squares on which the black men stand, row by row.
    pub fn pecas_pretas(&self) -> (r: Vec<Coord>)
        ensures
            r@ == self@.casas_com(Casa::Ocupada(Peca::Preta)),
    {
        self.procurar(Casa::Ocupada(Peca::Preta))
    }

    /// Whether the side that is not to move has no piece left.
    pub fn acabou(&self) -> (b: bool)
        ensures
            b == self@.sem_adversarios(),
    {
        let mut n: usize = 0;
        while n < 64
            invariant
                n <= 64,
                forall|k: int| 0 <= k < n ==> !self@.inimiga(#[trigger] casa_numero(k)),
            decreases 64 - n,
        {
            let coord = c((n % 8) as i32, (n / 8) as i32);
            if self.e_inimiga(coord) {
                return false;
            }
            n += 1;
        }
        assert forall|q: Coord| !self@.inimiga(q) by {
            if q.valida() {
                assert(casa_numero(q.y * 8 + q.x) == q);
            }
        }
        true
    }

    /// The single moves at hand for the side to move: those of each of its
    /// pieces, piece by piece, and only the jumps where any piece has one.
    /// Which of the jumps may be submitted is told by `jogadas_legais`, which
    /// keeps to the longest chains.
    pub fn todas_possiveis_jogadas(&self) -> (r: Vec<Jogada>)
        ensures
            r.deep_view() == self@.todas_possiveis(),
    {
        let pecas = self.pecas_da_cor_atual();
        let mut jogadas: Vec<Jogada> = Vec::new();
        let ghost por_peca = pecas@.map_values(self@.possiveis_de());
        let mut i: usize = 0;
        assert(jogadas.deep_view() =~= por_peca.take(0).flatten());
        while i < pecas.len()
            invariant
                i <= pecas.len(),
                pecas@ == self@.pecas_da_vez(),
                por_peca == pecas@.map_values(self@.possiveis_de()),
                jogadas.deep_view() == por_peca.take(i as int).flatten(),
            decreases pecas.len() - i,
        {
            proof {
                lema_filtro_elemento(todas_as_casas(), self@.e_propria(), i as int);
                lema_achatar_passo(por_peca, i as int);
            }
            let ghost antes = jogadas.deep_view();
            let mut desta = self.possiveis_jogadas(pecas[i]);
            let ghost novas = desta.deep_view();
            jogadas.append(&mut desta);
            assert(jogadas.deep_view() =~= antes + novas);
            i += 1;
        }
        assert(por_peca.take(pecas.len() as int) =~= por_peca);
        if tem_captura(&jogadas) {
            so_capturas(&jogadas)
        } else {
            jogadas
        }
    }

    /// Searches the chains that continue `stack` from `origem`, depth
    /// first, and adds each finished chain to `sequencias`. `stack` is
    /// handed back as it came.
    #[verifier::rlimit(40)]
    fn calcular_capturas_recursivamente(
        &self,
        origem: Coord,
        stack: &mut Vec<Jogada>,
        sequencias: &mut Vec<Vec<Jogada>>,
        peca: Peca,
    )
        requires
            origem.valida(),
            capturas_distintas(old(stack).deep_view()),
        ensures
            final(stack).deep_view() == old(stack).deep_view(),
            final(sequencias).deep_view() == old(sequencias).deep_view() + self@.cadeias(
                origem,
                peca,
                old(stack).deep_view(),
            ),
        decreases 64 - old(stack).len(),
    {
        let candidatas = self.capturas_imediatas(origem, peca);
        let antes = sequencias.len();
        let ghost caminho = stack.deep_view();
        let ghost achadas = sequencias.deep_view();
        let mut i: usize = 0;
        assert(sequencias.deep_view() + self@.ramos(origem, peca, caminho, 0) =~= achadas
            + self@.ramos(origem, peca, caminho, 0));
        while i < candidatas.len()
            invariant
                i <= candidatas.len(),
                origem.valida(),
                capturas_distintas(caminho),
                stack.deep_view() == caminho,
                stack.len() == old(stack).len(),
                candidatas.deep_view() == self@.capturas_imediatas(origem, peca),
                sequencias.deep_view() + self@.ramos(origem, peca, caminho, i as nat) == achadas
                    + self@.ramos(origem, peca, caminho, 0),
            decreases candidatas.len() - i,
        {
            let captura = &candidatas[i];
            let ghost j = candidatas.deep_view()[i as int];
            let ghost agora = sequencias.deep_view();
            proof {
                self@.lema_capturas_imediatas(origem, peca, i as int);
                assert(captura@ == j);
            }
            if !ja_capturou(stack, captura.captura()) {
                proof {
                    lema_mais_uma_captura(caminho, j);
                    lema_limite_de_capturas(caminho.push(j));
                }
                stack.push(*captura);
                assert(stack.deep_view() =~= caminho.push(j));
                self.calcular_capturas_recursivamente(captura.destino(), stack, sequencias, peca);
                let ghost cheia = stack.deep_view();
                stack.pop();
                assert(stack.deep_view() =~= cheia.drop_last());
                assert(cheia.drop_last() =~= caminho);
                assert(sequencias.deep_view() + self@.ramos(origem, peca, caminho, (i + 1) as nat)
                    =~= agora + self@.ramos(origem, peca, caminho, i as nat));
            }
            i += 1;
        }
        assert(sequencias.deep_view() =~= achadas + self@.ramos(origem, peca, caminho, 0));
        if sequencias.len() == antes {
            let ghost agora = sequencias.deep_view();
            sequencias.push(copiar_cadeia(stack));
            assert(sequencias.deep_view() =~= agora.push(caminho));
            assert(sequencias.deep_view() =~= achadas + seq![caminho]);
        }
    }

    /// The longest capture chains of the piece on `origem`, each a list of
    /// single jumps. The search goes by the board without the piece itself;
    /// a piece that was jumped stays on the board and is not jumped again.
    /// Where the piece cannot capture, or the square is empty, the result is
    /// the one empty chain.
    pub fn calcular_capturas(&self, origem: Coord) -> (r: Vec<Vec<Jogada>>)
        requires
            origem.valida(),
        ensures
            r.deep_view() == self@.capturas_de(origem),
    {
        let mut stack: Vec<Jogada> = Vec::new();
        let mut sequencias: Vec<Vec<Jogada>> = Vec::new();
        assert(stack.deep_view() =~= Seq::<Jogada>::empty());
        assert(sequencias.deep_view() =~= Seq::<Seq<Jogada>>::empty());
        match self.peca(origem) {
            None => {
                sequencias.push(stack);
                assert(sequencias.deep_view() =~= seq![Seq::<Jogada>::empty()]);
                sequencias
            },
            Some(peca) => {
                let mut sem_origem = Jogo { tabuleiro: self.tabuleiro, vez: self.vez };
                assert(sem_origem@.casas =~= self@.casas);
                sem_origem.definir_casa(origem, Casa::Vazia);
                sem_origem.calcular_capturas_recursivamente(
                    origem,
                    &mut stack,
                    &mut sequencias,
                    peca,
                );
                assert(sequencias.deep_view() =~= sem_origem@.cadeias(
                    origem,
                    peca,
                    Seq::<Jogada>::empty(),
                ));
                so_as_maiores(&sequencias)
            },
        }
    }

    /// The capture chains that the side to move may play: the chains of each
    /// of its pieces, piece by piece, and of these the longest. Empty where
    /// no piece can capture.
    pub fn todas_capturas_possiveis(&self) -> (r: Vec<Vec<Jogada>>)
        ensures
            r.deep_view() == self@.todas_capturas(),
    {
        let pecas = self.pecas_da_cor_atual();
        let mut capturas: Vec<Vec<Jogada>> = Vec::new();
        let ghost por_peca = pecas@.map_values(self@.capturas_por_casa());
        let mut i: usize = 0;
        assert(capturas.deep_view() =~= por_peca.take(0).flatten());
        while i < pecas.len()
            invariant
                i <= pecas.len(),
                pecas@ == self@.pecas_da_vez(),
                por_peca == pecas@.map_values(self@.capturas_por_casa()),
                capturas.deep_view() == por_peca.take(i as int).flatten(),
            decreases pecas.len() - i,
        {
            proof {
                lema_filtro_elemento(todas_as_casas(), self@.e_propria(), i as int);
                lema_achatar_passo(por_peca, i as int);
            }
            let ghost antes = capturas.deep_view();
            let mut desta = self.calcular_capturas(pecas[i]);
            let ghost novas = desta.deep_view();
            capturas.append(&mut desta);
            assert(capturas.deep_view() =~= antes + novas);
            i += 1;
        }
        assert(por_peca.take(pecas.len() as int) =~= por_peca);
        let capturas = sem_vazias(&capturas);
        so_as_maiores(&capturas)
    }

    /// The steps of each piece of the side to move, piece by piece; a piece
    /// that cannot step is left out.
    pub fn todos_movimentos_possiveis(&self) -> (r: Vec<Vec<Jogada>>)
        ensures
            r.deep_view() == self@.todos_movimentos(),
    {
        let pecas = self.pecas_da_cor_atual();
        let mut movimentos: Vec<Vec<Jogada>> = Vec::new();
        let ghost por_peca = pecas@.map_values(self@.movimentos_por_casa());
        let mut i: usize = 0;
        assert(movimentos.deep_view() =~= por_peca.take(0));
        while i < pecas.len()
            invariant
                i <= pecas.len(),
                pecas@ == self@.pecas_da_vez(),
                por_peca == pecas@.map_values(self@.movimentos_por_casa()),
                movimentos.deep_view() == por_peca.take(i as int),
            decreases pecas.len() - i,
        {
            proof {
                lema_filtro_elemento(todas_as_casas(), self@.e_propria(), i as int);
            }
            let ghost antes = movimentos.deep_view();
            let desta = self.calcular_movimentos(pecas[i]);
            movimentos.push(desta);
            assert(movimentos.deep_view() =~= antes.push(por_peca[i as int]));
            assert(por_peca.take(i + 1) =~= por_peca.take(i as int).push(por_peca[i as int]));
            i += 1;
        }
        assert(por_peca.take(pecas.len() as int) =~= por_peca);
        sem_vazias(&movimentos)
    }

    /// What the side to move may play: its longest capture chains, or, where
    /// it cannot capture, the steps of its pieces.
    pub fn todas_jogadas_possiveis(&self) -> (r: Vec<Vec<Jogada>>)
        ensures
            r.deep_view() == self@.todas_jogadas(),
    {
        let capturas = self.todas_capturas_possiveis();
        if capturas.len() == 0 {
            self.todos_movimentos_possiveis()
        } else {
            capturas
        }
    }

    /// Puts what stands on `origem` on `destino` and empties `origem`.
    pub fn mover_sem_checar(&mut self, origem: Coord, destino: Coord)
        requires
            origem.valida(),
            destino.valida(),
        ensures
            final(self)@ == old(self)@.mover_sem_checar(origem, destino),
    {
        let casa = self.casa(origem);
        self.definir_casa(destino, casa);
        self.definir_casa(origem, Casa::Vazia);
    }

    /// Carries out a step or a single jump, whether the rules allow it or
    /// not: the piece changes square and a jumped piece leaves the board.
    pub fn executar_jogada(&mut self, jogada: Jogada)
        requires
            jogada@.origem().valida(),
            jogada@.destino().valida(),
            jogada@ is Capturar ==> jogada@.captura().valida(),
        ensures
            final(self)@ == old(self)@.executar(jogada@),
    {
        match jogada {
            Jogada::Mover(origem, destino) => self.mover_sem_checar(origem, destino),
            Jogada::Capturar(origem, captura, destino) => {
                self.mover_sem_checar(origem, destino);
                self.definir_casa(captura, Casa::Vazia);
            },
        }
    }

    /// Crowns the piece on `destino` if it is a man on the last row of its
    /// way.
    fn promover(&mut self, destino: Coord)
        requires
            destino.valida(),
        ensures
            final(self)@ == old(self)@.promover(destino),
    {
        if let Casa::Ocupada(peca) = self.casa(destino) {
            if destino.y == peca.cor().linha_de_promocao() {
                self.definir_casa(destino, Casa::Ocupada(peca.dama()));
            }
        }
    }

    /// The moves that may be submitted: the first jump of each capture chain
    /// that the side may play or, where it has none, the steps of its
    /// pieces.
    pub fn jogadas_legais(&self) -> (r: Vec<Jogada>)
        ensures
            r.deep_view() == self@.legais(),
    {
        let capturas = self.todas_capturas_possiveis();
        let mut legais: Vec<Jogada> = Vec::new();
        if capturas.len() > 0 {
            let ghost cadeias = capturas.deep_view();
            let mut i: usize = 0;
            while i < capturas.len()
                invariant
                    i <= capturas.len(),
                    cadeias == capturas.deep_view(),
                    cadeias == self@.todas_capturas(),
                    legais.len() == i,
                    forall|k: int| 0 <= k < i ==> legais@[k] == cadeias[k].first(),
                decreases capturas.len() - i,
            {
                proof {
                    self@.lema_todas_capturas(i as int);
                    assert(cadeias[i as int] == capturas@[i as int].deep_view());
                }
                legais.push(capturas[i][0]);
                i += 1;
            }
            assert(legais.deep_view() =~= cadeias.map_values(primeiro_lance()));
            legais
        } else {
            let movimentos = self.todos_movimentos_possiveis();
            let ghost partes = movimentos.deep_view();
            let mut i: usize = 0;
            assert(legais.deep_view() =~= partes.take(0).flatten());
            while i < movimentos.len()
                invariant
                    i <= movimentos.len(),
                    partes == movimentos.deep_view(),
                    legais.deep_view() == partes.take(i as int).flatten(),
                decreases movimentos.len() - i,
            {
                proof {
                    lema_achatar_passo(partes, i as int);
                }
                let ghost antes = legais.deep_view();
                let mut desta = copiar_cadeia(&movimentos[i]);
                legais.append(&mut desta);
                assert(legais.deep_view() =~= antes + partes[i as int]);
                i += 1;
            }
            assert(partes.take(movimentos.len() as int) =~= partes);
            legais
        }
    }

    /// Submits the move of the piece on `origem` to `destino`.
    ///
    /// The move is made if it is one of `jogadas_legais`, else it fails and
    /// nothing changes. The result tells whether the turn passed, the same
    /// side goes on capturing, or the game is over.
    pub fn mover(&mut self, origem: Coord, destino: Coord) -> (r: JogadaResultado)
        ensures
            (r, final(self)@) == old(self)@.jogar(origem, destino),
    {
        let jogadas = self.jogadas_legais();
        let ghost legais = jogadas.deep_view();
        let mut i: usize = 0;
        assert(legais.skip(0) =~= legais);
        while i < jogadas.len() && !jogadas[i].tem(origem, destino)
            invariant
                i <= jogadas.len(),
                legais == jogadas.deep_view(),
                primeira_com(legais.skip(i as int), origem, destino) == primeira_com(
                    legais,
                    origem,
                    destino,
                ),
            decreases jogadas.len() - i,
        {
            assert(legais.skip(i as int).drop_first() =~= legais.skip(i + 1));
            i += 1;
        }
        if i == jogadas.len() {
            return JogadaResultado::Falha;
        }
        let jogada = jogadas[i];
        proof {
            assert(legais.skip(i as int).first() == jogada);
            self@.lema_legais(i as int);
        }
        let capturou = jogada.e_capturar();
        self.mover_sem_checar(origem, destino);
        if capturou {
            self.definir_casa(jogada.captura(), Casa::Vazia);
        }
        self.promover(destino);
        if capturou && self.acabou() {
            return JogadaResultado::FimDoJogo(self.vez);
        }
        if capturou && tem_captura(&self.possiveis_jogadas(destino)) {
            JogadaResultado::Sequencia
        } else {
            self.passar_turno();
            JogadaResultado::Sucesso
        }
    }

    /// The board as a grid of glyphs, row by row: `x` and `o` for the white
    /// and the black man, `X` and `O` for the kings, `.` for an empty square.
    pub fn glifos(&self) -> (r: [[char; 8]; 8])
        ensures
            forall|y: int, x: int|
                0 <= y < 8 && 0 <= x < 8 ==> #[trigger] r[y][x] == self@.casa(
                    Coord { x: x as i32, y: y as i32 },
                ).simbolo(),
    {
        let mut grade = [['.'; 8]; 8];
        let mut y: usize = 0;
        while y < 8
            invariant
                y <= 8,
                forall|j: int, i: int|
                    0 <= j < y && 0 <= i < 8 ==> #[trigger] grade[j][i] == self@.casa(
                        Coord { x: i as i32, y: j as i32 },
                    ).simbolo(),
            decreases 8 - y,
        {
            let mut x: usize = 0;
            while x < 8
                invariant
                    y < 8,
                    x <= 8,
                    forall|j: int, i: int|
                        0 <= j < y && 0 <= i < 8 ==> #[trigger] grade[j][i] == self@.casa(
                            Coord { x: i as i32, y: j as i32 },
                        ).simbolo(),
                    forall|i: int|
                        0 <= i < x ==> #[trigger] grade[y as int][i] == self@.casa(
                            Coord { x: i as i32, y: y as i32 },
                        ).simbolo(),
                decreases 8 - x,
            {
                grade[y][x] = self.casa(c(x as i32, y as i32)).glifo();
                x += 1;
            }
            y += 1;
        }
        grade
    }
}

impl Default for Jogo {
    /// A game on the opening layout, white to move.
    fn default() -> (r: Jogo)
        ensures
            r@ == posicao_do_layout(TABULEIRO_INICIAL),
    {
        Jogo::new(TABULEIRO_INICIAL)
    }
}

/// Whether one of the jumps of the chain went over `alvo`.
pub fn ja_capturou(cadeia: &Vec<Jogada>, alvo: Coord) -> (b: bool)
    requires
        forall|k: int| 0 <= k < cadeia.len() ==> (#[trigger] cadeia.deep_view()[k]).e_capturar(),
    ensures
        b == ja_capturada(cadeia.deep_view(), alvo),
{
    let mut i: usize = 0;
    while i < cadeia.len()
        invariant
            i <= cadeia.len(),
            forall|k: int|
                0 <= k < cadeia.len() ==> (#[trigger] cadeia.deep_view()[k]).e_capturar(),
            forall|k: int| 0 <= k < i ==> (#[trigger] cadeia.deep_view()[k]).captura() != alvo,
        decreases cadeia.len() - i,
    {
        assert(cadeia.deep_view()[i as int].e_capturar());
        if cadeia[i].captura() == alvo {
            return true;
        }
        i += 1;
    }
    false
}

/// The length of the longest chain; 0 where there is none.
pub fn maior_cadeia(cadeias: &Vec<Vec<Jogada>>) -> (r: usize)
    ensures
        r == maior_tamanho(cadeias.deep_view()),
{
    let mut maior: usize = 0;
    let ghost todas = cadeias.deep_view();
    let mut i: usize = 0;
    assert(todas.take(0) =~= Seq::empty());
    while i < cadeias.len()
        invariant
            i <= cadeias.len(),
            todas == cadeias.deep_view(),
            maior == maior_tamanho(todas.take(i as int)),
        decreases cadeias.len() - i,
    {
        assert(todas.take(i + 1).drop_last() =~= todas.take(i as int));
        assert(todas.take(i + 1).last().len() == cadeias[i as int].len());
        if cadeias[i].len() > maior {
            maior = cadeias[i].len();
        }
        i += 1;
    }
    assert(todas.take(cadeias.len() as int) =~= todas);
    maior
}

/// The chains that have `n` moves, in their order.
pub fn com_tamanho(cadeias: &Vec<Vec<Jogada>>, n: usize) -> (r: Vec<Vec<Jogada>>)
    ensures
        r.deep_view() == cadeias.deep_view().filter(tem_tamanho(n as nat)),
{
    let mut escolhidas: Vec<Vec<Jogada>> = Vec::new();
    let ghost todas = cadeias.deep_view();
    let ghost teste = tem_tamanho(n as nat);
    let mut i: usize = 0;
    proof {
        lema_filtro_vazio(teste);
        assert(todas.take(0) =~= Seq::empty());
        assert(escolhidas.deep_view() =~= Seq::empty());
    }
    while i < cadeias.len()
        invariant
            i <= cadeias.len(),
            todas == cadeias.deep_view(),
            teste == tem_tamanho(n as nat),
            escolhidas.deep_view() == todas.take(i as int).filter(teste),
        decreases cadeias.len() - i,
    {
        proof {
            lema_filtro_passo(todas, teste, i as int);
        }
        let ghost antes = escolhidas.deep_view();
        if cadeias[i].len() == n {
            escolhidas.push(copiar_cadeia(&cadeias[i]));
            assert(escolhidas.deep_view() =~= antes.push(todas[i as int]));
        }
        i += 1;
    }
    assert(todas.take(cadeias.len() as int) =~= todas);
    escolhidas
}

/// The chains that have a move, in their order.
pub fn sem_vazias(cadeias: &Vec<Vec<Jogada>>) -> (r: Vec<Vec<Jogada>>)
    ensures
        r.deep_view() == cadeias.deep_view().filter(nao_vazia()),
{
    let mut escolhidas: Vec<Vec<Jogada>> = Vec::new();
    let ghost todas = cadeias.deep_view();
    let mut i: usize = 0;
    proof {
        lema_filtro_vazio(nao_vazia());
        assert(todas.take(0) =~= Seq::empty());
        assert(escolhidas.deep_view() =~= Seq::empty());
    }
    while i < cadeias.len()
        invariant
            i <= cadeias.len(),
            todas == cadeias.deep_view(),
            escolhidas.deep_view() == todas.take(i as int).filter(nao_vazia()),
        decreases cadeias.len() - i,
    {
        proof {
            lema_filtro_passo(todas, nao_vazia(), i as int);
        }
        let ghost antes = escolhidas.deep_view();
        if cadeias[i].len() > 0 {
            escolhidas.push(copiar_cadeia(&cadeias[i]));
            assert(escolhidas.deep_view() =~= antes.push(todas[i as int]));
        }
        i += 1;
    }
    assert(todas.take(cadeias.len() as int) =~= todas);
    escolhidas
}

/// The chains that are as long as the longest of them, in their order.
pub fn so_as_maiores(cadeias: &Vec<Vec<Jogada>>) -> (r: Vec<Vec<Jogada>>)
    ensures
        r.deep_view() == mais_longas(cadeias.deep_view()),
{
    let maior = maior_cadeia(cadeias);
    com_tamanho(cadeias, maior)
}

/// Whether one of the moves is a capture.
pub fn tem_captura(jogadas: &Vec<Jogada>) -> (b: bool)
    ensures
        b == ha_captura(jogadas.deep_view()),
{
    let mut i: usize = 0;
    while i < jogadas.len()
        invariant
            i <= jogadas.len(),
            forall|k: int| 0 <= k < i ==> !(#[trigger] jogadas.deep_view()[k]).e_capturar(),
        decreases jogadas.len() - i,
    {
        if jogadas[i].e_capturar() {
            assert(jogadas.deep_view()[i as int].e_capturar());
            return true;
        }
        i += 1;
    }
    false
}

/// The captures among the moves, in their order.
pub fn so_capturas(jogadas: &Vec<Jogada>) -> (r: Vec<Jogada>)
    ensures
        r.deep_view() == jogadas.deep_view().filter(e_captura()),
{
    let mut capturas: Vec<Jogada> = Vec::new();
    let ghost todas = jogadas.deep_view();
    let mut i: usize = 0;
    proof {
        lema_filtro_vazio(e_captura());
        assert(todas.take(0) =~= Seq::empty());
        assert(capturas.deep_view() =~= Seq::empty());
    }
    while i < jogadas.len()
        invariant
            i <= jogadas.len(),
            todas == jogadas.deep_view(),
            capturas.deep_view() == todas.take(i as int).filter(e_captura()),
        decreases jogadas.len() - i,
    {
        proof {
            lema_filtro_passo(todas, e_captura(), i as int);
        }
        let ghost antes = capturas.deep_view();
        if jogadas[i].e_capturar() {
            capturas.push(jogadas[i]);
            assert(capturas.deep_view() =~= antes.push(todas[i as int]));
        }
        i += 1;
    }
    assert(todas.take(jogadas.len() as int) =~= todas);
    capturas
}

} // verus!
