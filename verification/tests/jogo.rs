use damas::coord::c;
use damas::jogada::{Jogada, JogadaResultado};
use damas::jogo::{
    com_tamanho, ja_capturou, maior_cadeia, sem_vazias, so_as_maiores, so_capturas, tem_captura,
    Jogo, TABULEIRO_INICIAL,
};
use damas::peca::{Casa, Jogador, Peca};

#[test]
fn testar_rainhas() {
    let tabuleiro: [[char; 8]; 8] = [
        ['p', '.', 'p', '.', 'p', '.', 'p', '.'],
        ['.', 'p', '.', 'p', '.', 'p', '.', '.'],
        ['P', '.', 'P', '.', '.', '.', '.', '.'],
        ['.', '.', '.', '.', '.', 'P', '.', '.'],
        ['.', '.', '.', '.', '.', '.', '.', '.'],
        ['B', '.', 'B', 'B', '.', '.', 'B', 'B'],
        ['.', 'b', '.', 'b', '.', 'b', '.', '.'],
        ['b', '.', 'b', '.', 'b', '.', 'b', '.'],
    ];
    let jogo = Jogo::new(tabuleiro);

    let coord = c(0, 5);
    assert_eq!(
        jogo.possiveis_jogadas(coord),
        vec![
            Jogada::Mover(c(0, 5), c(1, 4)),
            Jogada::Mover(c(0, 5), c(2, 3)),
            Jogada::Mover(c(0, 5), c(3, 2)),
            Jogada::Mover(c(0, 5), c(4, 1)),
            Jogada::Mover(c(0, 5), c(5, 0))
        ]
    );

    let coord = c(0, 5);
    assert_eq!(
        jogo.possiveis_jogadas(coord),
        vec![
            Jogada::Mover(c(0, 5), c(1, 4)),
            Jogada::Mover(c(0, 5), c(2, 3)),
            Jogada::Mover(c(0, 5), c(3, 2)),
            Jogada::Mover(c(0, 5), c(4, 1)),
            Jogada::Mover(c(0, 5), c(5, 0))
        ]
    );

    let coord = c(2, 5);
    assert_eq!(
        jogo.possiveis_jogadas(coord),
        vec![
            Jogada::Mover(c(2, 5), c(1, 4)),
            Jogada::Mover(c(2, 5), c(0, 3)),
            Jogada::Mover(c(2, 5), c(3, 4)),
            Jogada::Mover(c(2, 5), c(4, 3)),
            Jogada::Mover(c(2, 5), c(5, 2)),
            Jogada::Mover(c(2, 5), c(6, 1)),
            Jogada::Mover(c(2, 5), c(7, 0))
        ]
    );

    let coord = c(3, 5);
    assert_eq!(
        jogo.possiveis_jogadas(coord),
        vec![
            Jogada::Capturar(c(3, 5), c(5, 3), c(6, 2)),
            Jogada::Capturar(c(3, 5), c(5, 3), c(7, 1))
        ]
    );

    let coord = c(6, 5);
    assert_eq!(
        jogo.possiveis_jogadas(coord),
        vec![
            Jogada::Mover(c(6, 5), c(7, 6)),
            Jogada::Mover(c(6, 5), c(5, 4)),
            Jogada::Mover(c(6, 5), c(4, 3)),
            Jogada::Mover(c(6, 5), c(3, 2)),
            Jogada::Mover(c(6, 5), c(2, 1)),
            Jogada::Mover(c(6, 5), c(1, 0)),
            Jogada::Mover(c(6, 5), c(7, 4))
        ]
    );

    let coord = c(7, 5);
    assert_eq!(
        jogo.possiveis_jogadas(coord),
        vec![Jogada::Capturar(c(7, 5), c(5, 3), c(4, 2))]
    );
}

#[test]
fn testar_todas_possiveis_jogadas() {
    let tabuleiro: [[char; 8]; 8] = [
        ['p', '.', 'p', '.', 'p', '.', 'p', '.'],
        ['.', 'p', '.', 'p', '.', 'p', '.', 'p'],
        ['.', '.', 'p', '.', '.', '.', '.', '.'],
        ['.', 'p', '.', 'p', '.', '.', '.', 'p'],
        ['.', '.', 'b', '.', '.', '.', 'b', '.'],
        ['b', '.', '.', '.', 'b', '.', '.', '.'],
        ['.', 'b', '.', 'b', '.', 'b', '.', 'b'],
        ['b', '.', 'b', '.', 'b', '.', 'b', '.'],
    ];
    let jogo = Jogo::new(tabuleiro);
    assert_eq!(
        jogo.todas_possiveis_jogadas(),
        vec![
            Jogada::Capturar(c(2, 4), c(1, 3), c(0, 2)),
            Jogada::Capturar(c(2, 4), c(3, 3), c(4, 2))
        ]
    );

    let tabuleiro1: [[char; 8]; 8] = [
        ['.', '.', '.', '.', '.', '.', '.', '.'],
        ['.', '.', '.', '.', '.', '.', '.', '.'],
        ['.', '.', 'p', '.', 'p', '.', '.', '.'],
        ['.', '.', '.', 'B', '.', '.', '.', '.'],
        ['.', '.', '.', '.', '.', '.', '.', '.'],
        ['.', 'p', '.', '.', '.', 'p', '.', '.'],
        ['.', '.', '.', '.', '.', '.', '.', '.'],
        ['.', '.', '.', '.', '.', '.', '.', '.'],
    ];
    let jogo = Jogo::new(tabuleiro1);
    assert_eq!(
        jogo.todas_possiveis_jogadas(),
        vec![
            Jogada::Capturar(c(3, 3), c(5, 5), c(6, 6)),
            Jogada::Capturar(c(3, 3), c(5, 5), c(7, 7)),
            Jogada::Capturar(c(3, 3), c(2, 2), c(1, 1)),
            Jogada::Capturar(c(3, 3), c(2, 2), c(0, 0)),
            Jogada::Capturar(c(3, 3), c(4, 2), c(5, 1)),
            Jogada::Capturar(c(3, 3), c(4, 2), c(6, 0)),
            Jogada::Capturar(c(3, 3), c(1, 5), c(0, 6))
        ]
    );
}

fn vazio() -> [[char; 8]; 8] {
    [['.'; 8]; 8]
}

fn com_pecas(pecas: &[(i32, i32, char)]) -> Jogo {
    let mut tabuleiro = vazio();
    for (x, y, ch) in pecas {
        tabuleiro[*y as usize][*x as usize] = *ch;
    }
    Jogo::new(tabuleiro)
}

#[test]
fn tabuleiro_inicial() {
    let jogo = Jogo::default();
    assert_eq!(jogo.vez, Jogador::Branco);
    assert_eq!(jogo.pecas_brancas().len(), 12);
    assert_eq!(jogo.pecas_pretas().len(), 12);
    assert_eq!(jogo.casa(c(0, 0)), Casa::Ocupada(Peca::Preta));
    assert_eq!(jogo.casa(c(1, 0)), Casa::Vazia);
    assert_eq!(jogo.casa(c(0, 7)), Casa::Ocupada(Peca::Branca));
    assert_eq!(jogo.casa(c(7, 6)), Casa::Ocupada(Peca::Branca));
    assert_eq!(jogo.peca(c(3, 3)), None);
    assert_eq!(jogo.peca(c(1, 1)), Some(Peca::Preta));
    assert_eq!(
        jogo.glifos(),
        [
            ['o', '.', 'o', '.', 'o', '.', 'o', '.'],
            ['.', 'o', '.', 'o', '.', 'o', '.', 'o'],
            ['o', '.', 'o', '.', 'o', '.', 'o', '.'],
            ['.', '.', '.', '.', '.', '.', '.', '.'],
            ['.', '.', '.', '.', '.', '.', '.', '.'],
            ['x', '.', 'x', '.', 'x', '.', 'x', '.'],
            ['.', 'x', '.', 'x', '.', 'x', '.', 'x'],
            ['x', '.', 'x', '.', 'x', '.', 'x', '.'],
        ]
    );
    assert_eq!(Jogo::new(TABULEIRO_INICIAL).glifos(), jogo.glifos());
}

#[test]
fn layout_com_todas_as_pecas() {
    let jogo = com_pecas(&[(0, 0, 'p'), (1, 0, 'P'), (2, 0, 'b'), (3, 0, 'B')]);
    assert_eq!(jogo.casa(c(0, 0)), Casa::Ocupada(Peca::Preta));
    assert_eq!(jogo.casa(c(1, 0)), Casa::Ocupada(Peca::DamaPreta));
    assert_eq!(jogo.casa(c(2, 0)), Casa::Ocupada(Peca::Branca));
    assert_eq!(jogo.casa(c(3, 0)), Casa::Ocupada(Peca::DamaBranca));
    assert_eq!(jogo.casa(c(4, 0)), Casa::Vazia);
    assert_eq!(jogo.glifos()[0], ['o', 'O', 'x', 'X', '.', '.', '.', '.']);
    assert_eq!(jogo.pecas_brancas(), vec![c(2, 0)]);
    assert_eq!(jogo.pecas_pretas(), vec![c(0, 0)]);
    assert_eq!(jogo.vez, Jogador::Branco);
}

#[test]
fn a_linha_do_layout_e_a_linha_do_tabuleiro() {
    let jogo = com_pecas(&[(6, 1, 'b')]);
    assert_eq!(jogo.casa(c(6, 1)), Casa::Ocupada(Peca::Branca));
    assert_eq!(jogo.casa(c(1, 6)), Casa::Vazia);
    assert_eq!(jogo.pecas_da_cor_atual(), vec![c(6, 1)]);
}

#[test]
fn layouts_aceitos_e_recusados() {
    assert!(Jogo::layout_aceito(&TABULEIRO_INICIAL));
    assert!(Jogo::layout_aceito(&vazio()));
    let mut tabuleiro = vazio();
    tabuleiro[7][7] = 'x';
    assert!(!Jogo::layout_aceito(&tabuleiro));
    let mut tabuleiro = vazio();
    tabuleiro[0][0] = ' ';
    assert!(!Jogo::layout_aceito(&tabuleiro));
}

#[test]
fn abertura_peao_da_frente_tem_dois_passos() {
    let jogo = Jogo::default();
    assert_eq!(
        jogo.possiveis_jogadas(c(2, 5)),
        vec![
            Jogada::Mover(c(2, 5), c(1, 4)),
            Jogada::Mover(c(2, 5), c(3, 4))
        ]
    );
    assert_eq!(
        jogo.possiveis_jogadas(c(0, 5)),
        vec![Jogada::Mover(c(0, 5), c(1, 4))]
    );
    assert_eq!(
        jogo.possiveis_jogadas(c(6, 5)),
        vec![
            Jogada::Mover(c(6, 5), c(5, 4)),
            Jogada::Mover(c(6, 5), c(7, 4))
        ]
    );
    assert_eq!(jogo.todas_capturas_possiveis(), Vec::<Vec<Jogada>>::new());
    assert_eq!(jogo.todas_possiveis_jogadas().len(), 7);
    assert_eq!(
        jogo.todas_jogadas_possiveis(),
        vec![
            vec![Jogada::Mover(c(0, 5), c(1, 4))],
            vec![
                Jogada::Mover(c(2, 5), c(1, 4)),
                Jogada::Mover(c(2, 5), c(3, 4))
            ],
            vec![
                Jogada::Mover(c(4, 5), c(3, 4)),
                Jogada::Mover(c(4, 5), c(5, 4))
            ],
            vec![
                Jogada::Mover(c(6, 5), c(5, 4)),
                Jogada::Mover(c(6, 5), c(7, 4))
            ],
        ]
    );
}

#[test]
fn abertura_pecas_sem_passos_e_do_adversario() {
    let jogo = Jogo::default();
    assert_eq!(jogo.possiveis_jogadas(c(1, 6)), vec![]);
    assert_eq!(jogo.possiveis_jogadas(c(0, 7)), vec![]);
    assert_eq!(jogo.possiveis_jogadas(c(3, 3)), vec![]);
    assert_eq!(jogo.possiveis_jogadas(c(0, 2)), vec![]);
    assert_eq!(jogo.possiveis_jogadas(c(1, 1)), vec![]);
}

#[test]
fn captura_simples_exclui_os_passos() {
    let jogo = com_pecas(&[(2, 4, 'b'), (3, 3, 'p')]);
    assert_eq!(
        jogo.possiveis_jogadas(c(2, 4)),
        vec![Jogada::Capturar(c(2, 4), c(3, 3), c(4, 2))]
    );
    assert_eq!(
        jogo.todas_possiveis_jogadas(),
        vec![Jogada::Capturar(c(2, 4), c(3, 3), c(4, 2))]
    );
    assert_eq!(
        jogo.movimentos_peao(c(2, 4)),
        vec![Jogada::Mover(c(2, 4), c(1, 3))]
    );
    assert_eq!(
        jogo.calcular_movimentos(c(2, 4)),
        vec![Jogada::Mover(c(2, 4), c(1, 3))]
    );
    assert_eq!(
        jogo.calcular_capturas(c(2, 4)),
        vec![vec![Jogada::Capturar(c(2, 4), c(3, 3), c(4, 2))]]
    );
    assert_eq!(
        jogo.todas_jogadas_possiveis(),
        vec![vec![Jogada::Capturar(c(2, 4), c(3, 3), c(4, 2))]]
    );
}

#[test]
fn captura_de_uma_peca_obriga_o_lado_todo() {
    let jogo = com_pecas(&[(2, 4, 'b'), (3, 3, 'p'), (6, 6, 'b'), (0, 7, 'B')]);
    assert_eq!(
        jogo.possiveis_jogadas(c(6, 6)),
        vec![
            Jogada::Mover(c(6, 6), c(5, 5)),
            Jogada::Mover(c(6, 6), c(7, 5))
        ]
    );
    assert_eq!(
        jogo.todas_possiveis_jogadas(),
        vec![Jogada::Capturar(c(2, 4), c(3, 3), c(4, 2))]
    );
    assert_eq!(
        jogo.todas_jogadas_possiveis(),
        vec![vec![Jogada::Capturar(c(2, 4), c(3, 3), c(4, 2))]]
    );
    assert_eq!(
        jogo.todos_movimentos_possiveis(),
        vec![
            vec![Jogada::Mover(c(2, 4), c(1, 3))],
            vec![
                Jogada::Mover(c(6, 6), c(5, 5)),
                Jogada::Mover(c(6, 6), c(7, 5))
            ],
            vec![
                Jogada::Mover(c(0, 7), c(1, 6)),
                Jogada::Mover(c(0, 7), c(2, 5)),
                Jogada::Mover(c(0, 7), c(3, 4)),
                Jogada::Mover(c(0, 7), c(4, 3)),
                Jogada::Mover(c(0, 7), c(5, 2)),
                Jogada::Mover(c(0, 7), c(6, 1)),
                Jogada::Mover(c(0, 7), c(7, 0))
            ],
        ]
    );
}

#[test]
fn peao_captura_para_tras_mas_nao_anda_para_tras() {
    let jogo = com_pecas(&[(2, 4, 'b'), (3, 5, 'p'), (7, 0, 'p')]);
    assert_eq!(
        jogo.possiveis_jogadas(c(2, 4)),
        vec![Jogada::Capturar(c(2, 4), c(3, 5), c(4, 6))]
    );
    let jogo = com_pecas(&[(2, 4, 'b')]);
    assert_eq!(
        jogo.possiveis_jogadas(c(2, 4)),
        vec![
            Jogada::Mover(c(2, 4), c(1, 3)),
            Jogada::Mover(c(2, 4), c(3, 3))
        ]
    );
}

#[test]
fn salto_sem_pouso_nao_e_captura() {
    let jogo = com_pecas(&[(6, 4, 'b'), (7, 3, 'p')]);
    assert_eq!(
        jogo.possiveis_jogadas(c(6, 4)),
        vec![Jogada::Mover(c(6, 4), c(5, 3))]
    );
    assert_eq!(jogo.capturas_imediatas_peao(c(6, 4)), vec![]);
    let jogo = com_pecas(&[(2, 4, 'b'), (3, 3, 'p'), (4, 2, 'p')]);
    assert_eq!(
        jogo.possiveis_jogadas(c(2, 4)),
        vec![Jogada::Mover(c(2, 4), c(1, 3))]
    );
    let jogo = com_pecas(&[(2, 4, 'b'), (3, 3, 'b')]);
    assert_eq!(
        jogo.possiveis_jogadas(c(2, 4)),
        vec![Jogada::Mover(c(2, 4), c(1, 3))]
    );
    assert_eq!(jogo.calcular_capturas(c(2, 4)), vec![Vec::<Jogada>::new()]);
}

#[test]
fn dama_no_centro_do_tabuleiro_vazio() {
    let jogo = com_pecas(&[(3, 3, 'B')]);
    let passos = jogo.movimentos_dama(c(3, 3));
    let destinos: Vec<_> = c(3, 3).diagonais_da_rainha();
    assert_eq!(passos.len(), 13);
    assert_eq!(destinos.len(), 13);
    for (passo, destino) in passos.iter().zip(destinos.iter()) {
        assert_eq!(*passo, Jogada::Mover(c(3, 3), *destino));
    }
    assert_eq!(jogo.possiveis_jogadas(c(3, 3)), passos);
    assert_eq!(jogo.calcular_movimentos(c(3, 3)), passos);
    let por_direcao: Vec<usize> = [(1, 1), (-1, -1), (1, -1), (-1, 1)]
        .iter()
        .map(|(dx, dy)| {
            passos
                .iter()
                .filter(|j| {
                    let d = c(3, 3).distancia(j.destino()).normal();
                    d == c(*dx, *dy)
                })
                .count()
        })
        .collect();
    assert_eq!(por_direcao, vec![4, 3, 3, 3]);
}

#[test]
fn dama_em_qualquer_casa_do_tabuleiro_vazio() {
    for y in 0..8 {
        for x in 0..8 {
            let jogo = com_pecas(&[(x, y, 'B')]);
            let passos = jogo.movimentos_dama(c(x, y));
            let esperados: Vec<Jogada> = c(x, y)
                .diagonais_da_rainha()
                .into_iter()
                .map(|d| Jogada::Mover(c(x, y), d))
                .collect();
            assert_eq!(passos, esperados);
        }
    }
}

#[test]
fn movimentos_da_dama_param_na_primeira_peca() {
    let jogo = com_pecas(&[(3, 3, 'B'), (5, 5, 'b'), (1, 1, 'p'), (0, 0, 'p')]);
    assert_eq!(
        jogo.movimentos_dama(c(3, 3)),
        vec![
            Jogada::Mover(c(3, 3), c(4, 4)),
            Jogada::Mover(c(3, 3), c(2, 2)),
            Jogada::Mover(c(3, 3), c(4, 2)),
            Jogada::Mover(c(3, 3), c(5, 1)),
            Jogada::Mover(c(3, 3), c(6, 0)),
            Jogada::Mover(c(3, 3), c(2, 4)),
            Jogada::Mover(c(3, 3), c(1, 5)),
            Jogada::Mover(c(3, 3), c(0, 6))
        ]
    );
    assert_eq!(jogo.capturas_imediatas_dama(c(3, 3)), vec![]);
    assert_eq!(jogo.possiveis_jogadas(c(3, 3)), jogo.movimentos_dama(c(3, 3)));
}

#[test]
fn capturas_imediatas_da_dama_uma_por_pouso() {
    let jogo = com_pecas(&[
        (3, 3, 'B'),
        (2, 2, 'p'),
        (4, 2, 'p'),
        (1, 5, 'p'),
        (5, 5, 'p'),
    ]);
    assert_eq!(
        jogo.capturas_imediatas_dama(c(3, 3)),
        vec![
            Jogada::Capturar(c(3, 3), c(5, 5), c(6, 6)),
            Jogada::Capturar(c(3, 3), c(5, 5), c(7, 7)),
            Jogada::Capturar(c(3, 3), c(2, 2), c(1, 1)),
            Jogada::Capturar(c(3, 3), c(2, 2), c(0, 0)),
            Jogada::Capturar(c(3, 3), c(4, 2), c(5, 1)),
            Jogada::Capturar(c(3, 3), c(4, 2), c(6, 0)),
            Jogada::Capturar(c(3, 3), c(1, 5), c(0, 6))
        ]
    );
    assert_eq!(
        jogo.capturas_imediatas(c(3, 3), Peca::DamaBranca),
        jogo.capturas_imediatas_dama(c(3, 3))
    );
    assert_eq!(
        jogo.capturas_imediatas(c(3, 3), Peca::Branca),
        vec![
            Jogada::Capturar(c(3, 3), c(2, 2), c(1, 1)),
            Jogada::Capturar(c(3, 3), c(4, 2), c(5, 1))
        ]
    );
}

#[test]
fn cadeia_de_tres_da_dama() {
    let jogo = com_pecas(&[
        (4, 1, 'p'),
        (5, 2, 'b'),
        (3, 4, 'b'),
        (7, 4, 'b'),
        (1, 6, 'p'),
        (3, 6, 'p'),
        (5, 6, 'p'),
        (0, 7, 'B'),
    ]);
    let cadeia = vec![
        Jogada::Capturar(c(0, 7), c(1, 6), c(2, 5)),
        Jogada::Capturar(c(2, 5), c(3, 6), c(4, 7)),
        Jogada::Capturar(c(4, 7), c(5, 6), c(6, 5)),
    ];
    assert_eq!(jogo.calcular_capturas(c(0, 7)), vec![cadeia.clone()]);
    assert_eq!(
        jogo.calcular_capturas(c(5, 2)),
        vec![vec![Jogada::Capturar(c(5, 2), c(4, 1), c(3, 0))]]
    );
    assert_eq!(jogo.calcular_capturas(c(3, 4)), vec![Vec::<Jogada>::new()]);
    assert_eq!(jogo.todas_capturas_possiveis(), vec![cadeia.clone()]);
    assert_eq!(jogo.todas_jogadas_possiveis(), vec![cadeia]);
}

#[test]
fn cadeia_mais_longa_exclui_a_mais_curta() {
    let jogo = com_pecas(&[
        (5, 2, 'p'),
        (3, 4, 'p'),
        (2, 5, 'b'),
        (6, 6, 'p'),
        (7, 7, 'b'),
    ]);
    let longa = vec![
        Jogada::Capturar(c(2, 5), c(3, 4), c(4, 3)),
        Jogada::Capturar(c(4, 3), c(5, 2), c(6, 1)),
    ];
    let curta = vec![Jogada::Capturar(c(7, 7), c(6, 6), c(5, 5))];
    assert_eq!(jogo.calcular_capturas(c(2, 5)), vec![longa.clone()]);
    assert_eq!(jogo.calcular_capturas(c(7, 7)), vec![curta]);
    assert_eq!(jogo.todas_capturas_possiveis(), vec![longa.clone()]);
    assert_eq!(jogo.todas_jogadas_possiveis(), vec![longa]);
    assert_eq!(
        jogo.todas_possiveis_jogadas(),
        vec![
            Jogada::Capturar(c(2, 5), c(3, 4), c(4, 3)),
            Jogada::Capturar(c(7, 7), c(6, 6), c(5, 5))
        ]
    );
}

#[test]
fn cadeias_de_mesmo_tamanho_ficam_todas() {
    let jogo = com_pecas(&[(3, 3, 'B'), (5, 5, 'p')]);
    assert_eq!(
        jogo.calcular_capturas(c(3, 3)),
        vec![
            vec![Jogada::Capturar(c(3, 3), c(5, 5), c(6, 6))],
            vec![Jogada::Capturar(c(3, 3), c(5, 5), c(7, 7))]
        ]
    );
    let jogo = com_pecas(&[(2, 4, 'b'), (1, 3, 'p'), (3, 3, 'p')]);
    assert_eq!(
        jogo.todas_capturas_possiveis(),
        vec![
            vec![Jogada::Capturar(c(2, 4), c(1, 3), c(0, 2))],
            vec![Jogada::Capturar(c(2, 4), c(3, 3), c(4, 2))]
        ]
    );
}

#[test]
fn peca_saltada_fica_no_tabuleiro_mas_nao_e_saltada_de_novo() {
    let jogo = com_pecas(&[(0, 7, 'B'), (1, 6, 'p')]);
    assert_eq!(
        jogo.calcular_capturas(c(0, 7)),
        vec![
            vec![Jogada::Capturar(c(0, 7), c(1, 6), c(2, 5))],
            vec![Jogada::Capturar(c(0, 7), c(1, 6), c(3, 4))],
            vec![Jogada::Capturar(c(0, 7), c(1, 6), c(4, 3))],
            vec![Jogada::Capturar(c(0, 7), c(1, 6), c(5, 2))],
            vec![Jogada::Capturar(c(0, 7), c(1, 6), c(6, 1))],
            vec![Jogada::Capturar(c(0, 7), c(1, 6), c(7, 0))]
        ]
    );
    assert_eq!(jogo.glifos()[6][1], 'o');
    assert_eq!(jogo.glifos()[7][0], 'X');
}

#[test]
fn peao_escolhe_entre_tres_continuacoes() {
    let jogo = com_pecas(&[
        (2, 6, 'b'),
        (3, 5, 'p'),
        (5, 5, 'p'),
        (5, 3, 'p'),
        (3, 3, 'p'),
    ]);
    let primeiro = Jogada::Capturar(c(2, 6), c(3, 5), c(4, 4));
    assert_eq!(
        jogo.calcular_capturas(c(2, 6)),
        vec![
            vec![
                primeiro.clone(),
                Jogada::Capturar(c(4, 4), c(3, 3), c(2, 2))
            ],
            vec![
                primeiro.clone(),
                Jogada::Capturar(c(4, 4), c(5, 3), c(6, 2))
            ],
            vec![
                primeiro.clone(),
                Jogada::Capturar(c(4, 4), c(5, 5), c(6, 6))
            ],
        ]
    );
}

#[test]
fn executar_jogada_move_e_retira() {
    let mut jogo = com_pecas(&[(2, 4, 'b'), (3, 3, 'p')]);
    jogo.executar_jogada(Jogada::Capturar(c(2, 4), c(3, 3), c(4, 2)));
    assert_eq!(jogo.casa(c(2, 4)), Casa::Vazia);
    assert_eq!(jogo.casa(c(3, 3)), Casa::Vazia);
    assert_eq!(jogo.casa(c(4, 2)), Casa::Ocupada(Peca::Branca));
    assert_eq!(jogo.vez, Jogador::Branco);
    jogo.executar_jogada(Jogada::Mover(c(4, 2), c(5, 1)));
    assert_eq!(jogo.casa(c(4, 2)), Casa::Vazia);
    assert_eq!(jogo.casa(c(5, 1)), Casa::Ocupada(Peca::Branca));
}

#[test]
fn executar_jogada_nao_promove() {
    let mut jogo = com_pecas(&[(1, 1, 'b')]);
    jogo.executar_jogada(Jogada::Mover(c(1, 1), c(0, 0)));
    assert_eq!(jogo.casa(c(0, 0)), Casa::Ocupada(Peca::Branca));
}

#[test]
fn ida_e_volta_restaura_o_tabuleiro() {
    let inicial = Jogo::default();
    for jogada in inicial.todas_possiveis_jogadas() {
        let mut jogo = Jogo::default();
        let ida = Jogada::Mover(jogada.origem(), jogada.destino());
        let volta = Jogada::Mover(jogada.destino(), jogada.origem());
        jogo.executar_jogada(ida);
        assert_ne!(jogo.glifos(), inicial.glifos());
        jogo.executar_jogada(volta);
        assert_eq!(jogo.glifos(), inicial.glifos());
        assert_eq!(jogo.vez, inicial.vez);
    }
    let mut jogo = com_pecas(&[(3, 3, 'B'), (6, 6, 'p')]);
    let antes = jogo.glifos();
    jogo.mover_sem_checar(c(3, 3), c(0, 6));
    jogo.mover_sem_checar(c(0, 6), c(3, 3));
    assert_eq!(jogo.glifos(), antes);
}

#[test]
fn definir_casa_muda_uma_casa() {
    let mut jogo = Jogo::new(vazio());
    jogo.definir_casa(c(5, 2), Casa::Ocupada(Peca::DamaPreta));
    let mut esperado = vazio();
    esperado[2][5] = 'O';
    assert_eq!(jogo.glifos(), esperado);
    jogo.definir_casa(c(5, 2), Casa::Vazia);
    assert_eq!(jogo.glifos(), vazio());
}

#[test]
fn casa_mut_da_a_casa_para_escrever() {
    let mut jogo = com_pecas(&[(2, 5, 'b')]);
    assert_eq!(*jogo.casa_mut(c(2, 5)), Casa::Ocupada(Peca::Branca));
    *jogo.casa_mut(c(2, 5)) = Casa::Ocupada(Peca::DamaBranca);
    *jogo.casa_mut(c(7, 0)) = Casa::Ocupada(Peca::Preta);
    let mut esperado = vazio();
    esperado[5][2] = 'X';
    esperado[0][7] = 'o';
    assert_eq!(jogo.glifos(), esperado);
    assert_eq!(jogo.vez, Jogador::Branco);
}

#[test]
fn vez_e_pecas_da_cor_atual() {
    let mut jogo = com_pecas(&[(1, 0, 'p'), (4, 3, 'P'), (2, 5, 'b'), (7, 7, 'B')]);
    assert!(jogo.e_a_vez_de(Peca::Branca));
    assert!(jogo.e_a_vez_de(Peca::DamaBranca));
    assert!(!jogo.e_a_vez_de(Peca::Preta));
    assert!(!jogo.e_a_vez_de(Peca::DamaPreta));
    assert_eq!(jogo.pecas_da_cor_atual(), vec![c(2, 5), c(7, 7)]);
    assert!(!jogo.acabou());
    jogo.passar_turno();
    assert_eq!(jogo.vez, Jogador::Preto);
    assert!(jogo.e_a_vez_de(Peca::Preta));
    assert!(!jogo.e_a_vez_de(Peca::Branca));
    assert_eq!(jogo.pecas_da_cor_atual(), vec![c(1, 0), c(4, 3)]);
    jogo.passar_turno();
    assert_eq!(jogo.vez, Jogador::Branco);
}

#[test]
fn acabou_quando_o_adversario_nao_tem_pecas() {
    let mut jogo = com_pecas(&[(2, 5, 'b')]);
    assert!(jogo.acabou());
    jogo.passar_turno();
    assert!(!jogo.acabou());
    assert!(Jogo::new(vazio()).acabou());
}

#[test]
fn mover_falha_sem_mudar_nada() {
    let mut jogo = Jogo::default();
    let antes = jogo.glifos();
    assert_eq!(jogo.mover(c(3, 3), c(4, 4)), JogadaResultado::Falha);
    assert_eq!(jogo.mover(c(0, 2), c(1, 3)), JogadaResultado::Falha);
    assert_eq!(jogo.mover(c(2, 5), c(2, 4)), JogadaResultado::Falha);
    assert_eq!(jogo.mover(c(2, 5), c(4, 3)), JogadaResultado::Falha);
    assert_eq!(jogo.mover(c(1, 6), c(2, 5)), JogadaResultado::Falha);
    assert_eq!(jogo.mover(c(-1, 9), c(0, 8)), JogadaResultado::Falha);
    assert_eq!(jogo.mover(c(0, 5), c(-1, 4)), JogadaResultado::Falha);
    assert_eq!(
        jogo.mover(c(i32::MAX, i32::MIN), c(i32::MIN, i32::MAX)),
        JogadaResultado::Falha
    );
    assert_eq!(jogo.glifos(), antes);
    assert_eq!(jogo.vez, Jogador::Branco);
}

#[test]
fn mover_um_passo_passa_a_vez() {
    let mut jogo = Jogo::default();
    assert_eq!(jogo.mover(c(2, 5), c(3, 4)), JogadaResultado::Sucesso);
    assert_eq!(jogo.vez, Jogador::Preto);
    assert_eq!(jogo.casa(c(2, 5)), Casa::Vazia);
    assert_eq!(jogo.casa(c(3, 4)), Casa::Ocupada(Peca::Branca));
    assert_eq!(jogo.mover(c(3, 4), c(2, 3)), JogadaResultado::Falha);
    assert_eq!(jogo.mover(c(1, 2), c(2, 3)), JogadaResultado::Falha);
    assert_eq!(jogo.mover(c(2, 2), c(1, 3)), JogadaResultado::Sucesso);
    assert_eq!(jogo.vez, Jogador::Branco);
    assert_eq!(jogo.casa(c(2, 2)), Casa::Vazia);
    assert_eq!(jogo.casa(c(1, 3)), Casa::Ocupada(Peca::Preta));
}

#[test]
fn mover_recusa_o_passo_quando_ha_captura() {
    let mut jogo = com_pecas(&[(2, 4, 'b'), (3, 3, 'p'), (6, 6, 'b'), (0, 0, 'p')]);
    let antes = jogo.glifos();
    assert_eq!(jogo.mover(c(2, 4), c(1, 3)), JogadaResultado::Falha);
    assert_eq!(jogo.mover(c(6, 6), c(5, 5)), JogadaResultado::Falha);
    assert_eq!(jogo.glifos(), antes);
    assert_eq!(jogo.mover(c(2, 4), c(4, 2)), JogadaResultado::Sucesso);
    assert_eq!(jogo.casa(c(3, 3)), Casa::Vazia);
    assert_eq!(jogo.casa(c(4, 2)), Casa::Ocupada(Peca::Branca));
    assert_eq!(jogo.vez, Jogador::Preto);
}

#[test]
fn mover_recusa_a_captura_fora_da_cadeia_mais_longa() {
    let mut jogo = com_pecas(&[
        (4, 2, 'p'),
        (2, 4, 'p'),
        (1, 5, 'b'),
        (6, 5, 'p'),
        (5, 6, 'b'),
    ]);
    let antes = jogo.glifos();
    assert_eq!(
        jogo.calcular_capturas(c(5, 6)),
        vec![vec![Jogada::Capturar(c(5, 6), c(6, 5), c(7, 4))]]
    );
    assert_eq!(
        jogo.todas_capturas_possiveis(),
        vec![vec![
            Jogada::Capturar(c(1, 5), c(2, 4), c(3, 3)),
            Jogada::Capturar(c(3, 3), c(4, 2), c(5, 1))
        ]]
    );
    assert_eq!(
        jogo.jogadas_legais(),
        vec![Jogada::Capturar(c(1, 5), c(2, 4), c(3, 3))]
    );
    assert_eq!(jogo.mover(c(5, 6), c(7, 4)), JogadaResultado::Falha);
    assert_eq!(jogo.mover(c(1, 5), c(0, 4)), JogadaResultado::Falha);
    assert_eq!(jogo.glifos(), antes);
    assert_eq!(jogo.vez, Jogador::Branco);
    assert_eq!(jogo.mover(c(1, 5), c(3, 3)), JogadaResultado::Sequencia);
    assert_eq!(jogo.casa(c(2, 4)), Casa::Vazia);
    assert_eq!(jogo.vez, Jogador::Branco);
    assert_eq!(jogo.mover(c(3, 3), c(5, 1)), JogadaResultado::Sucesso);
    assert_eq!(jogo.casa(c(4, 2)), Casa::Vazia);
    assert_eq!(jogo.casa(c(5, 1)), Casa::Ocupada(Peca::Branca));
    assert_eq!(jogo.vez, Jogador::Preto);
}

#[test]
fn jogadas_legais_sem_captura_sao_os_passos() {
    let jogo = Jogo::default();
    assert_eq!(
        jogo.jogadas_legais(),
        vec![
            Jogada::Mover(c(0, 5), c(1, 4)),
            Jogada::Mover(c(2, 5), c(1, 4)),
            Jogada::Mover(c(2, 5), c(3, 4)),
            Jogada::Mover(c(4, 5), c(3, 4)),
            Jogada::Mover(c(4, 5), c(5, 4)),
            Jogada::Mover(c(6, 5), c(5, 4)),
            Jogada::Mover(c(6, 5), c(7, 4))
        ]
    );
    assert_eq!(Jogo::new(vazio()).jogadas_legais(), vec![]);
}

#[test]
fn jogadas_legais_repetem_o_primeiro_salto_de_cadeias_irmas() {
    let jogo = com_pecas(&[
        (2, 6, 'b'),
        (3, 5, 'p'),
        (5, 5, 'p'),
        (5, 3, 'p'),
        (3, 3, 'p'),
    ]);
    let primeiro = Jogada::Capturar(c(2, 6), c(3, 5), c(4, 4));
    assert_eq!(jogo.jogadas_legais(), vec![primeiro, primeiro, primeiro]);
}

#[test]
fn mover_em_sequencia_e_promover() {
    let mut jogo = com_pecas(&[
        (5, 2, 'p'),
        (3, 4, 'p'),
        (2, 5, 'b'),
        (6, 6, 'p'),
        (7, 7, 'b'),
    ]);
    assert_eq!(jogo.mover(c(7, 7), c(5, 5)), JogadaResultado::Falha);
    assert_eq!(jogo.mover(c(2, 5), c(4, 3)), JogadaResultado::Sequencia);
    assert_eq!(jogo.vez, Jogador::Branco);
    assert_eq!(jogo.casa(c(3, 4)), Casa::Vazia);
    assert_eq!(jogo.casa(c(4, 3)), Casa::Ocupada(Peca::Branca));
    assert_eq!(jogo.mover(c(4, 3), c(6, 1)), JogadaResultado::Sucesso);
    assert_eq!(jogo.vez, Jogador::Preto);
    assert_eq!(jogo.casa(c(5, 2)), Casa::Vazia);
    assert_eq!(jogo.casa(c(6, 1)), Casa::Ocupada(Peca::Branca));
    assert_eq!(jogo.mover(c(6, 6), c(5, 7)), JogadaResultado::Sucesso);
    assert_eq!(jogo.casa(c(5, 7)), Casa::Ocupada(Peca::DamaPreta));
    assert_eq!(jogo.glifos()[7][5], 'O');
    assert_eq!(jogo.vez, Jogador::Branco);
    assert_eq!(jogo.mover(c(6, 1), c(7, 0)), JogadaResultado::Sucesso);
    assert_eq!(jogo.casa(c(7, 0)), Casa::Ocupada(Peca::DamaBranca));
    assert_eq!(jogo.glifos()[0][7], 'X');
    assert_eq!(jogo.vez, Jogador::Preto);
}

#[test]
fn mover_captura_a_ultima_peca_e_acaba() {
    let mut jogo = com_pecas(&[(2, 5, 'b'), (3, 4, 'p')]);
    assert_eq!(
        jogo.mover(c(2, 5), c(4, 3)),
        JogadaResultado::FimDoJogo(Jogador::Branco)
    );
    assert_eq!(jogo.vez, Jogador::Branco);
    assert_eq!(jogo.casa(c(3, 4)), Casa::Vazia);
    assert_eq!(jogo.casa(c(4, 3)), Casa::Ocupada(Peca::Branca));
    assert!(jogo.acabou());
}

#[test]
fn mover_dama_captura_com_pouso_escolhido() {
    let mut jogo = com_pecas(&[(3, 5, 'B'), (5, 3, 'P'), (0, 0, 'p')]);
    assert_eq!(jogo.mover(c(3, 5), c(5, 3)), JogadaResultado::Falha);
    assert_eq!(jogo.mover(c(3, 5), c(4, 4)), JogadaResultado::Falha);
    assert_eq!(jogo.mover(c(3, 5), c(7, 1)), JogadaResultado::Sucesso);
    assert_eq!(jogo.casa(c(3, 5)), Casa::Vazia);
    assert_eq!(jogo.casa(c(5, 3)), Casa::Vazia);
    assert_eq!(jogo.casa(c(7, 1)), Casa::Ocupada(Peca::DamaBranca));
    assert_eq!(jogo.vez, Jogador::Preto);
}

#[test]
fn peao_que_cai_na_propria_linha_de_partida_nao_e_promovido() {
    let mut jogo = com_pecas(&[(2, 5, 'b'), (3, 6, 'p'), (0, 0, 'p')]);
    assert_eq!(jogo.mover(c(2, 5), c(4, 7)), JogadaResultado::Sucesso);
    assert_eq!(jogo.casa(c(4, 7)), Casa::Ocupada(Peca::Branca));
}

#[test]
fn promocao_na_captura_e_sequencia_como_dama() {
    let mut jogo = com_pecas(&[(2, 2, 'b'), (3, 1, 'p'), (6, 2, 'p'), (0, 7, 'p')]);
    assert_eq!(jogo.mover(c(2, 2), c(4, 0)), JogadaResultado::Sequencia);
    assert_eq!(jogo.casa(c(4, 0)), Casa::Ocupada(Peca::DamaBranca));
    assert_eq!(jogo.vez, Jogador::Branco);
    assert_eq!(
        jogo.possiveis_jogadas(c(4, 0)),
        vec![Jogada::Capturar(c(4, 0), c(6, 2), c(7, 3))]
    );
    assert_eq!(jogo.mover(c(4, 0), c(7, 3)), JogadaResultado::Sucesso);
    assert_eq!(jogo.vez, Jogador::Preto);
}

#[test]
fn ajudantes_de_listas_de_jogadas() {
    let passo = Jogada::Mover(c(2, 5), c(3, 4));
    let salto = Jogada::Capturar(c(2, 4), c(3, 3), c(4, 2));
    let voo = Jogada::Capturar(c(3, 5), c(5, 3), c(6, 2));
    let lista = vec![passo, salto, passo, voo];
    assert!(tem_captura(&lista));
    assert!(!tem_captura(&vec![passo.clone()]));
    assert!(!tem_captura(&Vec::new()));
    assert_eq!(so_capturas(&lista), vec![salto, voo]);

    let outro = Jogada::Capturar(c(4, 2), c(5, 1), c(6, 0));
    let cadeias = vec![
        vec![salto.clone()],
        Vec::new(),
        vec![salto.clone(), outro.clone()],
        vec![outro.clone()],
        vec![outro.clone(), salto.clone()],
    ];
    assert_eq!(maior_cadeia(&cadeias), 2);
    assert_eq!(maior_cadeia(&Vec::new()), 0);
    assert_eq!(
        com_tamanho(&cadeias, 1),
        vec![vec![salto.clone()], vec![outro.clone()]]
    );
    assert_eq!(sem_vazias(&cadeias).len(), 4);
    assert_eq!(
        so_as_maiores(&cadeias),
        vec![
            vec![salto.clone(), outro.clone()],
            vec![outro.clone(), salto.clone()]
        ]
    );
    assert!(ja_capturou(&cadeias[2], c(5, 1)));
    assert!(ja_capturou(&cadeias[2], c(3, 3)));
    assert!(!ja_capturou(&cadeias[2], c(4, 2)));
}

#[test]
fn texto_do_tabuleiro_inicial() {
    let esperado = "   0  1  2  3  4  5  6  7\n\
0  o  .  o  .  o  .  o  . \n\
1  .  o  .  o  .  o  .  o \n\
2  o  .  o  .  o  .  o  . \n\
3  .  .  .  .  .  .  .  . \n\
4  .  .  .  .  .  .  .  . \n\
5  x  .  x  .  x  .  x  . \n\
6  .  x  .  x  .  x  .  x \n\
7  x  .  x  .  x  .  x  . \n";
    assert_eq!(Jogo::default().texto(), esperado);
}

#[test]
fn texto_com_damas() {
    let jogo = com_pecas(&[(7, 0, 'B'), (0, 7, 'P')]);
    let texto = jogo.texto();
    let linhas: Vec<&str> = texto.lines().collect();
    assert_eq!(linhas.len(), 9);
    assert_eq!(linhas[0], "   0  1  2  3  4  5  6  7");
    assert_eq!(linhas[1], "0  .  .  .  .  .  .  .  X ");
    assert_eq!(linhas[8], "7  O  .  .  .  .  .  .  . ");
    assert_eq!(texto.len(), 26 + 8 * 27);
    assert!(texto.ends_with('\n'));
}

#[test]
fn jogador_da_vez_acompanha_o_campo() {
    let mut jogo = Jogo::default();
    assert_eq!(jogo.jogador_da_vez(), Jogador::Branco);
    jogo.passar_turno();
    assert_eq!(jogo.jogador_da_vez(), Jogador::Preto);
    assert_eq!(jogo.jogador_da_vez(), jogo.vez);
}

#[test]
fn origem_e_destino_nomeiam_uma_so_jogada() {
    let posicoes = [
        Jogo::default(),
        com_pecas(&[
            (3, 3, 'B'),
            (2, 2, 'p'),
            (4, 2, 'p'),
            (1, 5, 'p'),
            (5, 5, 'p'),
        ]),
        com_pecas(&[(2, 4, 'b'), (1, 3, 'p'), (3, 3, 'p'), (6, 6, 'B')]),
        com_pecas(&[(3, 3, 'B'), (5, 5, 'B'), (0, 0, 'p')]),
    ];
    for jogo in posicoes.iter() {
        let jogadas = jogo.jogadas_legais();
        for y in 0..8 {
            for x in 0..8 {
                for jogada in jogadas.iter() {
                    let origem = jogada.origem();
                    let mut iguais: Vec<Jogada> = jogadas
                        .iter()
                        .filter(|j| j.tem(origem, c(x, y)))
                        .copied()
                        .collect();
                    iguais.dedup();
                    assert!(iguais.len() <= 1);
                }
            }
        }
    }
}
